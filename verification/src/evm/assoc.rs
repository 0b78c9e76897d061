//! A map for keys that are compared, not hashed.

use crate::primitives::{Address, B256, U256};
use vstd::prelude::*;

verus! {

/// A key that can tell whether it is another.
pub trait Key: Copy {
    fn is(&self, other: &Self) -> (r: bool)
        ensures
            r == (*self == *other),
    ;
}

impl Key for Address {
    fn is(&self, other: &Self) -> (r: bool) {
        *self == *other
    }
}

impl Key for B256 {
    fn is(&self, other: &Self) -> (r: bool) {
        *self == *other
    }
}

impl Key for U256 {
    fn is(&self, other: &Self) -> (r: bool) {
        *self == *other
    }
}

impl Key for u64 {
    fn is(&self, other: &Self) -> (r: bool) {
        *self == *other
    }
}

/// A map in the form of a list of entries, at most one per key.
#[derive(Debug)]
pub struct AssocMap<K, V> {
    entries: Vec<(K, V)>,
}

/// Whether the `i`-th entry is that of the key.
pub open spec fn holds_at<K, V>(entries: Seq<(K, V)>, key: K, i: int) -> bool {
    0 <= i < entries.len() && entries[i].0 == key
}

pub open spec fn one_per_key<K, V>(entries: Seq<(K, V)>) -> bool {
    forall|i: int, j: int|
        0 <= i < j < entries.len() ==> (#[trigger] entries[i]).0 != (#[trigger] entries[j]).0
}

pub open spec fn map_of<K, V>(entries: Seq<(K, V)>) -> Map<K, V> {
    Map::new(
        |k: K| exists|i: int| holds_at(entries, k, i),
        |k: K| entries[choose|i: int| holds_at(entries, k, i)].1,
    )
}

pub proof fn lemma_map_at<K, V>(entries: Seq<(K, V)>, i: int)
    requires
        one_per_key(entries),
        0 <= i < entries.len(),
    ensures
        map_of(entries).contains_key(entries[i].0),
        map_of(entries)[entries[i].0] == entries[i].1,
{
    let k = entries[i].0;
    assert(holds_at(entries, k, i));
    let j = choose|j: int| holds_at(entries, k, j);
    assert(holds_at(entries, k, j));
    if i < j {
        assert(entries[i].0 != entries[j].0);
    }
    if j < i {
        assert(entries[j].0 != entries[i].0);
    }
}

proof fn lemma_map_push<K, V>(entries: Seq<(K, V)>, key: K, value: V)
    requires
        one_per_key(entries),
        !map_of(entries).contains_key(key),
    ensures
        one_per_key(entries.push((key, value))),
        map_of(entries.push((key, value))) == map_of(entries).insert(key, value),
{
    let after = entries.push((key, value));
    let want = map_of(entries).insert(key, value);
    assert forall|a: int, b: int| 0 <= a < b < after.len() implies (#[trigger] after[a]).0 != (
    #[trigger] after[b]).0 by {
        if b == entries.len() {
            lemma_map_at(entries, a);
        } else {
            assert(entries[a].0 != entries[b].0);
        }
    }
    assert forall|k: K| map_of(after).contains_key(k) <==> want.contains_key(k) by {
        if map_of(entries).contains_key(k) {
            let j = choose|j: int| holds_at(entries, k, j);
            assert(holds_at(entries, k, j));
            assert(holds_at(after, k, j));
        }
        if k == key {
            assert(holds_at(after, k, entries.len() as int));
        }
        if map_of(after).contains_key(k) && k != key {
            let j = choose|j: int| holds_at(after, k, j);
            assert(holds_at(after, k, j));
            assert(holds_at(entries, k, j));
        }
    }
    assert forall|k: K| map_of(after).contains_key(k) implies map_of(after)[k] == want[k] by {
        let j = choose|j: int| holds_at(after, k, j);
        assert(holds_at(after, k, j));
        lemma_map_at(after, j);
        if j < entries.len() {
            lemma_map_at(entries, j);
        }
    }
    assert(map_of(after) =~= want);
}

proof fn lemma_map_swap_remove<K, V>(entries: Seq<(K, V)>, i: int)
    requires
        one_per_key(entries),
        0 <= i < entries.len(),
    ensures
        one_per_key(entries.update(i, entries.last()).drop_last()),
        map_of(entries.update(i, entries.last()).drop_last()) == map_of(entries).remove(
            entries[i].0,
        ),
{
    let after = entries.update(i, entries.last()).drop_last();
    let key = entries[i].0;
    let want = map_of(entries).remove(key);
    let last = entries.len() - 1;
    assert forall|a: int, b: int| 0 <= a < b < after.len() implies (#[trigger] after[a]).0 != (
    #[trigger] after[b]).0 by {
        if a == i {
            assert(after[a] == entries[last] && after[b] == entries[b]);
            assert(entries[b].0 != entries[last].0);
        } else if b == i {
            assert(after[b] == entries[last] && after[a] == entries[a]);
            assert(entries[a].0 != entries[last].0);
        } else {
            assert(entries[a].0 != entries[b].0);
        }
    }
    assert forall|k: K| map_of(after).contains_key(k) <==> want.contains_key(k) by {
        if map_of(entries).contains_key(k) && k != key {
            let j = choose|j: int| holds_at(entries, k, j);
            assert(holds_at(entries, k, j));
            if j == last {
                assert(holds_at(after, k, i));
            } else {
                assert(holds_at(after, k, j));
            }
        }
        if map_of(after).contains_key(k) {
            let j = choose|j: int| holds_at(after, k, j);
            assert(holds_at(after, k, j));
            let o = if j == i {
                last
            } else {
                j
            };
            assert(after[j] == entries[o]);
            assert(holds_at(entries, k, o));
            if o < i {
                assert(entries[o].0 != entries[i].0);
            } else {
                assert(entries[i].0 != entries[o].0);
            }
        }
    }
    assert forall|k: K| map_of(after).contains_key(k) implies map_of(after)[k] == want[k] by {
        let j = choose|j: int| holds_at(after, k, j);
        assert(holds_at(after, k, j));
        lemma_map_at(after, j);
        let o = if j == i {
            last
        } else {
            j
        };
        assert(after[j] == entries[o]);
        lemma_map_at(entries, o);
    }
    assert(map_of(after) =~= want);
}

impl<K, V> View for AssocMap<K, V> {
    type V = Map<K, V>;

    closed spec fn view(&self) -> Map<K, V> {
        map_of(self.entries@)
    }
}

impl<K, V> AssocMap<K, V> {
    #[verifier::type_invariant]
    spec fn one_each(self) -> bool {
        one_per_key(self.entries@)
    }
}

impl<K: Key, V> AssocMap<K, V> {
    pub fn new() -> (r: Self)
        ensures
            r@ == Map::<K, V>::empty(),
    {
        let r = AssocMap { entries: Vec::new() };
        assert forall|k: K| !r@.contains_key(k) by {
            if r@.contains_key(k) {
                let i = choose|i: int| holds_at(r.entries@, k, i);
                assert(holds_at(r.entries@, k, i));
            }
        }
        assert(r@ =~= Map::<K, V>::empty());
        r
    }

    /// Where the entry of the key stands.
    fn position(&self, key: K) -> (r: Option<usize>)
        ensures
            match r {
                Some(i) => holds_at(self.entries@, key, i as int),
                None => !self@.contains_key(key),
            },
    {
        let mut i: usize = 0;
        while i < self.entries.len()
            invariant
                i <= self.entries@.len(),
                forall|j: int| 0 <= j < i ==> (#[trigger] self.entries@[j]).0 != key,
            decreases self.entries@.len() - i,
        {
            if self.entries[i].0.is(&key) {
                return Some(i);
            }
            i = i + 1;
        }
        proof {
            if self@.contains_key(key) {
                let j = choose|j: int| holds_at(self.entries@, key, j);
                assert(holds_at(self.entries@, key, j));
                assert(self.entries@[j].0 == key);
            }
        }
        None
    }

    /// All entries, once each.
    pub fn entries(&self) -> (r: &Vec<(K, V)>)
        ensures
            one_per_key(r@),
            map_of(r@) == self@,
    {
        proof {
            use_type_invariant(self);
        }
        &self.entries
    }

    pub fn get(&self, key: K) -> (r: Option<&V>)
        ensures
            match r {
                Some(v) => self@.contains_key(key) && *v == self@[key],
                None => !self@.contains_key(key),
            },
    {
        proof {
            use_type_invariant(self);
        }
        match self.position(key) {
            Some(i) => {
                proof {
                    lemma_map_at(self.entries@, i as int);
                }
                Some(&self.entries[i].1)
            },
            None => None,
        }
    }

    /// Takes the entry of the key out, if there is one.
    pub fn take(&mut self, key: K) -> (r: Option<V>)
        ensures
            final(self)@ == old(self)@.remove(key),
            match r {
                Some(v) => old(self)@.contains_key(key) && v == old(self)@[key],
                None => !old(self)@.contains_key(key),
            },
    {
        proof {
            use_type_invariant(&*self);
        }
        let ghost before = self.entries@;
        match self.position(key) {
            Some(i) => {
                proof {
                    lemma_map_at(before, i as int);
                    lemma_map_swap_remove(before, i as int);
                }
                let mut entries = Vec::new();
                std::mem::swap(&mut entries, &mut self.entries);
                let (_, value) = entries.swap_remove(i);
                self.entries = entries;
                Some(value)
            },
            None => {
                assert(self@ =~= self@.remove(key));
                None
            },
        }
    }

    /// Makes the value that of the key.
    pub fn insert(&mut self, key: K, value: V)
        ensures
            final(self)@ == old(self)@.insert(key, value),
    {
        let ghost before = self@;
        let _ = self.take(key);
        proof {
            use_type_invariant(&*self);
            lemma_map_push(self.entries@, key, value);
        }
        let mut entries = Vec::new();
        std::mem::swap(&mut entries, &mut self.entries);
        entries.push((key, value));
        self.entries = entries;
        assert(before.remove(key).insert(key, value) =~= before.insert(key, value));
    }
}

} // verus!
