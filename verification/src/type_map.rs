//! A map keyed by runtime type identifiers: the lookup table behind every
//! per-type registry of the plugin.
use vstd::prelude::*;
use std::any::TypeId;
use crate::outside::same_type;

verus! {

/// An association list from type identifiers to values, in which no
/// identifier occurs twice. Its view is the map it represents.
///
/// The registries keep their handlers here rather than in the ECS's own
/// type-identifier hash map: the handlers are function pointers, whose type
/// Verus does not support, and the map's contents could only be named by a
/// generic specification function, which a trusted name cannot be.
pub struct TypeMap<V> {
    entries: Vec<(TypeId, V)>,
    contents: Ghost<Map<TypeId, V>>,
}

impl<V> View for TypeMap<V> {
    type V = Map<TypeId, V>;

    closed spec fn view(&self) -> Map<TypeId, V> {
        self.contents@
    }
}

impl<V> TypeMap<V> {
    /// The list holds each identifier once, and exactly the pairs of the view.
    pub closed spec fn wf(&self) -> bool {
        let s = self.entries@;
        &&& forall|i: int, j: int| 0 <= i < j < s.len() ==> #[trigger] s[i].0 != #[trigger] s[j].0
        &&& forall|i: int|
            0 <= i < s.len() ==> self.contents@.contains_key(#[trigger] s[i].0)
                && self.contents@[s[i].0] == s[i].1
        &&& forall|k: TypeId|
            #[trigger] self.contents@.contains_key(k) ==> exists|i: int|
                0 <= i < s.len() && #[trigger] s[i].0 == k
    }

    /// An empty map.
    pub fn new() -> (m: Self)
        ensures
            m.wf(),
            m@ == Map::<TypeId, V>::empty(),
    {
        TypeMap { entries: Vec::new(), contents: Ghost(Map::empty()) }
    }

    /// Position of `key` in the list, if it is there.
    fn position(&self, key: &TypeId) -> (r: Option<usize>)
        requires
            self.wf(),
        ensures
            match r {
                Some(i) => i < self.entries@.len() && self.entries@[i as int].0 == *key,
                None => !self@.contains_key(*key),
            },
    {
        let mut i: usize = 0;
        while i < self.entries.len()
            invariant
                self.wf(),
                i <= self.entries@.len(),
                forall|j: int| 0 <= j < i ==> self.entries@[j].0 != *key,
            decreases self.entries@.len() - i,
        {
            if same_type(&self.entries[i].0, key) {
                return Some(i);
            }
            i = i + 1;
        }
        proof {
            if self@.contains_key(*key) {
                let w = choose|j: int| 0 <= j < self.entries@.len() && #[trigger] self.entries@[j].0 == *key;
                assert(self.entries@[w].0 == *key);
            }
        }
        None
    }

    /// The value stored under `key`, if any.
    pub fn get(&self, key: &TypeId) -> (r: Option<&V>)
        requires
            self.wf(),
        ensures
            match r {
                Some(v) => self@.contains_key(*key) && *v == self@[*key],
                None => !self@.contains_key(*key),
            },
    {
        match self.position(key) {
            Some(i) => Some(&self.entries[i].1),
            None => None,
        }
    }

    /// Whether a value is stored under `key`.
    pub fn contains_key(&self, key: &TypeId) -> (r: bool)
        requires
            self.wf(),
        ensures
            r == self@.contains_key(*key),
    {
        self.position(key).is_some()
    }

    /// Stores `value` under `key`, replacing what was stored there before.
    pub fn insert(&mut self, key: TypeId, value: V)
        requires
            old(self).wf(),
        ensures
            final(self).wf(),
            final(self)@ == old(self)@.insert(key, value),
    {
        let ghost old_contents = self.contents@;
        let ghost new_contents = old_contents.insert(key, value);
        match self.position(&key) {
            Some(i) => {
                let ghost old_entries = self.entries@;
                self.entries.set(i, (key, value));
                self.contents = Ghost(new_contents);
                proof {
                    let s = self.entries@;
                    assert(s == old_entries.update(i as int, (key, value)));
                    assert forall|a: int, b: int| 0 <= a < b < s.len() implies #[trigger] s[a].0
                        != #[trigger] s[b].0 by {
                        assert(old_entries[a].0 != old_entries[b].0);
                    }
                    assert forall|j: int| 0 <= j < s.len() implies new_contents.contains_key(
                        #[trigger] s[j].0,
                    ) && new_contents[s[j].0] == s[j].1 by {
                        if j != i {
                            assert(old_entries[j].0 != old_entries[i as int].0 || j == i);
                        }
                    }
                    assert forall|k: TypeId| #[trigger] new_contents.contains_key(k) implies exists|
                        j: int,
                    | 0 <= j < s.len() && #[trigger] s[j].0 == k by {
                        if k == key {
                            assert(s[i as int].0 == k);
                        } else {
                            let w = choose|j: int|
                                0 <= j < old_entries.len() && #[trigger] old_entries[j].0 == k;
                            assert(s[w].0 == k);
                        }
                    }
                }
            },
            None => {
                let ghost old_entries = self.entries@;
                self.entries.push((key, value));
                self.contents = Ghost(new_contents);
                proof {
                    let s = self.entries@;
                    assert(s == old_entries.push((key, value)));
                    assert forall|a: int, b: int| 0 <= a < b < s.len() implies #[trigger] s[a].0
                        != #[trigger] s[b].0 by {
                        if b == old_entries.len() {
                            assert(old_contents.contains_key(old_entries[a].0));
                        } else {
                            assert(old_entries[a].0 != old_entries[b].0);
                        }
                    }
                    assert forall|j: int| 0 <= j < s.len() implies new_contents.contains_key(
                        #[trigger] s[j].0,
                    ) && new_contents[s[j].0] == s[j].1 by {
                        if j < old_entries.len() {
                            assert(old_contents.contains_key(old_entries[j].0));
                        }
                    }
                    assert forall|k: TypeId| #[trigger] new_contents.contains_key(k) implies exists|
                        j: int,
                    | 0 <= j < s.len() && #[trigger] s[j].0 == k by {
                        if k == key {
                            assert(s[old_entries.len() as int].0 == k);
                        } else {
                            let w = choose|j: int|
                                0 <= j < old_entries.len() && #[trigger] old_entries[j].0 == k;
                            assert(s[w].0 == k);
                        }
                    }
                }
            },
        }
    }
}

/// A read gives back what the last write under the same identifier wrote,
/// and a write leaves what is stored under every other identifier as it was.
pub proof fn lemma_read_after_write<V>(before: Map<TypeId, V>, key: TypeId, value: V, other: TypeId)
    ensures
        before.insert(key, value).contains_key(key),
        before.insert(key, value)[key] == value,
        other != key ==> (before.insert(key, value).contains_key(other) <==> before.contains_key(
            other,
        )),
        other != key && before.contains_key(other) ==> before.insert(key, value)[other]
            == before[other],
{
}

/// Writing the same identifier twice keeps only the second value.
pub proof fn lemma_last_write_wins<V>(before: Map<TypeId, V>, key: TypeId, first: V, second: V)
    ensures
        before.insert(key, first).insert(key, second) == before.insert(key, second),
{
    assert(before.insert(key, first).insert(key, second) =~= before.insert(key, second));
}

} // verus!
