use vstd::prelude::*;

use crate::primitive::vector::Vec3I;

verus! {

/// The mathematical contents of an entry list: later entries win.
pub open spec fn spec_entries_map<V>(s: Seq<(Vec3I, V)>) -> Map<Vec3I, V>
    decreases s.len(),
{
    if s.len() == 0 {
        Map::empty()
    } else {
        spec_entries_map(s.drop_last()).insert(s.last().0, s.last().1)
    }
}

/// A small map from grid positions to values, backed by a vector of entries
/// with pairwise-distinct keys. The search keeps so few visited nodes that a
/// linear scan is enough, and the backing stays fully verifiable.
pub struct PositionMap<V> {
    entries: Vec<(Vec3I, V)>,
}

impl<V> PositionMap<V> {
    /// The map this container represents.
    pub closed spec fn view(&self) -> Map<Vec3I, V> {
        spec_entries_map(self.entries@)
    }

    /// The backing entry list.
    pub closed spec fn spec_entries(&self) -> Seq<(Vec3I, V)> {
        self.entries@
    }

    /// Every entry is a binding of the map.
    pub proof fn lemma_entry_key(&self, i: int)
        requires
            self.wf(),
            0 <= i < self.spec_entries().len(),
        ensures
            self@.contains_key(self.spec_entries()[i].0),
            self@[self.spec_entries()[i].0] == self.spec_entries()[i].1,
    {
        lemma_entries_map_found(self.entries@, self.entries@[i].0, i);
        lemma_entries_map_value(self.entries@, self.entries@[i].0, i);
    }

    /// Every key of the map appears in the entry list.
    pub proof fn lemma_key_entry(&self, key: Vec3I)
        requires
            self.wf(),
            self@.contains_key(key),
        ensures
            exists|i: int|
                0 <= i < self.spec_entries().len() && (#[trigger] self.spec_entries()[i]).0
                    == key,
    {
        lemma_entries_map_key_index(self.entries@, key);
        let i = choose|i: int| 0 <= i < self.entries@.len() && (#[trigger] self.entries@[i]).0 == key;
        assert(0 <= i < self.spec_entries().len() && (#[trigger] self.spec_entries()[i]).0 == key);
    }

    /// Keys are pairwise distinct.
    pub closed spec fn wf(&self) -> bool {
        forall|i: int, j: int|
            0 <= i < j < self.entries@.len() ==> (#[trigger] self.entries@[i]).0 != (
            #[trigger] self.entries@[j]).0
    }

    pub fn new() -> (r: PositionMap<V>)
        ensures
            r.wf(),
            r@ == Map::<Vec3I, V>::empty(),
            r.spec_entries() == Seq::<(Vec3I, V)>::empty(),
    {
        PositionMap { entries: Vec::new() }
    }

    pub fn contains_key(&self, key: &Vec3I) -> (r: bool)
        requires
            self.wf(),
        ensures
            r == self@.contains_key(*key),
    {
        let n = self.entries.len();
        let mut i: usize = 0;
        while i < n
            invariant
                n == self.entries@.len(),
                0 <= i <= n,
                forall|j: int| 0 <= j < i ==> (#[trigger] self.entries@[j]).0 != *key,
            decreases n - i,
        {
            if self.entries[i].0 == *key {
                proof {
                    lemma_entries_map_found(self.entries@, *key, i as int);
                }
                return true;
            }
            i = i + 1;
        }
        proof {
            lemma_entries_map_absent(self.entries@, *key);
        }
        false
    }

    pub fn get(&self, key: &Vec3I) -> (r: Option<&V>)
        requires
            self.wf(),
        ensures
            match r {
                Option::Some(v) => self@.contains_key(*key) && *v == self@[*key],
                Option::None => !self@.contains_key(*key),
            },
    {
        let n = self.entries.len();
        let mut i: usize = 0;
        while i < n
            invariant
                n == self.entries@.len(),
                0 <= i <= n,
                self.wf(),
                forall|j: int| 0 <= j < i ==> (#[trigger] self.entries@[j]).0 != *key,
            decreases n - i,
        {
            if self.entries[i].0 == *key {
                proof {
                    lemma_entries_map_found(self.entries@, *key, i as int);
                    lemma_entries_map_value(self.entries@, *key, i as int);
                }
                return Option::Some(&self.entries[i].1);
            }
            i = i + 1;
        }
        proof {
            lemma_entries_map_absent(self.entries@, *key);
        }
        Option::None
    }

    pub fn insert(&mut self, key: Vec3I, value: V)
        requires
            old(self).wf(),
        ensures
            final(self).wf(),
            final(self)@ == old(self)@.insert(key, value),
            old(self)@.contains_key(key) ==> exists|i: int|
                0 <= i < old(self).spec_entries().len() && (#[trigger] old(
                    self,
                ).spec_entries()[i]) == (key, old(self)@[key]) && final(self).spec_entries()
                    == old(self).spec_entries().update(i, (key, value)),
            !old(self)@.contains_key(key) ==> final(self).spec_entries() == old(
                self,
            ).spec_entries().push((key, value)),
    {
        let n = self.entries.len();
        let mut i: usize = 0;
        while i < n
            invariant
                n == self.entries@.len(),
                0 <= i <= n,
                self.wf(),
                self@ == old(self)@,
                self.entries@ == old(self).entries@,
                forall|j: int| 0 <= j < i ==> (#[trigger] self.entries@[j]).0 != key,
            decreases n - i,
        {
            if self.entries[i].0 == key {
                let ghost old_entries = self.entries@;
                proof {
                    lemma_entries_map_found(old_entries, key, i as int);
                }
                proof {
                    lemma_entries_map_value(old_entries, key, i as int);
                }
                self.entries[i] = (key, value);
                proof {
                    lemma_entries_map_update(old_entries, key, value, i as int);
                    assert((#[trigger] old(self).spec_entries()[i as int]) == (
                        key,
                        old(self)@[key],
                    ));
                }
                return ;
            }
            i = i + 1;
        }
        self.entries.push((key, value));
        proof {
            assert(self.entries@.drop_last() == old(self).entries@);
            lemma_entries_map_absent(old(self).entries@, key);
        }
    }
}

/// A key the map contains is held by some entry.
proof fn lemma_entries_map_key_index<V>(s: Seq<(Vec3I, V)>, key: Vec3I)
    requires
        spec_entries_map(s).contains_key(key),
    ensures
        exists|i: int| 0 <= i < s.len() && (#[trigger] s[i]).0 == key,
    decreases s.len(),
{
    if s.len() > 0 {
        if s.last().0 == key {
            assert((#[trigger] s[s.len() - 1]).0 == key);
        } else {
            lemma_entries_map_key_index(s.drop_last(), key);
            let i = choose|i: int|
                0 <= i < s.drop_last().len() && (#[trigger] s.drop_last()[i]).0 == key;
            assert((#[trigger] s[i]).0 == key);
        }
    }
}

/// If some entry holds the key, the map contains the key.
proof fn lemma_entries_map_found<V>(s: Seq<(Vec3I, V)>, key: Vec3I, i: int)
    requires
        0 <= i < s.len(),
        s[i].0 == key,
    ensures
        spec_entries_map(s).contains_key(key),
    decreases s.len(),
{
    if i < s.len() - 1 {
        lemma_entries_map_found(s.drop_last(), key, i);
    }
}

/// If no entry holds the key, the map does not contain it.
proof fn lemma_entries_map_absent<V>(s: Seq<(Vec3I, V)>, key: Vec3I)
    requires
        forall|j: int| 0 <= j < s.len() ==> (#[trigger] s[j]).0 != key,
    ensures
        !spec_entries_map(s).contains_key(key),
    decreases s.len(),
{
    if s.len() > 0 {
        lemma_entries_map_absent(s.drop_last(), key);
    }
}

/// With pairwise-distinct keys, the entry holding the key gives its value.
proof fn lemma_entries_map_value<V>(s: Seq<(Vec3I, V)>, key: Vec3I, i: int)
    requires
        0 <= i < s.len(),
        s[i].0 == key,
        forall|p: int, q: int|
            0 <= p < q < s.len() ==> (#[trigger] s[p]).0 != (#[trigger] s[q]).0,
    ensures
        spec_entries_map(s)[key] == s[i].1,
    decreases s.len(),
{
    if i == s.len() - 1 {
    } else {
        lemma_entries_map_value(s.drop_last(), key, i);
    }
}

/// Overwriting the entry that holds the key updates the map at that key.
proof fn lemma_entries_map_update<V>(s: Seq<(Vec3I, V)>, key: Vec3I, value: V, i: int)
    requires
        0 <= i < s.len(),
        s[i].0 == key,
        forall|p: int, q: int|
            0 <= p < q < s.len() ==> (#[trigger] s[p]).0 != (#[trigger] s[q]).0,
    ensures
        spec_entries_map(s.update(i, (key, value))) == spec_entries_map(s).insert(key, value),
    decreases s.len(),
{
    let t = s.update(i, (key, value));
    if i == s.len() - 1 {
        assert(t.drop_last() == s.drop_last());
        assert(spec_entries_map(t) == spec_entries_map(s).insert(key, value)) by {
            assert(spec_entries_map(t) == spec_entries_map(t.drop_last()).insert(key, value));
            assert(spec_entries_map(s).insert(key, value) == spec_entries_map(
                s.drop_last(),
            ).insert(s.last().0, s.last().1).insert(key, value));
            assert(s.last().0 == key);
            assert(spec_entries_map(s.drop_last()).insert(key, s.last().1).insert(key, value)
                =~= spec_entries_map(s.drop_last()).insert(key, value));
        }
    } else {
        lemma_entries_map_update(s.drop_last(), key, value, i);
        assert(t.drop_last() == s.drop_last().update(i, (key, value)));
        assert(t.last() == s.last());
        assert(spec_entries_map(t) == spec_entries_map(s.drop_last()).insert(key, value).insert(
            s.last().0,
            s.last().1,
        ));
        assert(s.last().0 != key);
        assert(spec_entries_map(s.drop_last()).insert(key, value).insert(s.last().0, s.last().1)
            =~= spec_entries_map(s.drop_last()).insert(s.last().0, s.last().1).insert(key, value));
    }
}

} // verus!
