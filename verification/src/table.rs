//! A keyed table whose entries can be enumerated.

use vstd::prelude::*;

verus! {

/// A key: two keys are the same when their views are equal.
pub trait Key: View + Sized {
    /// Whether two keys are the same.
    fn same(&self, other: &Self) -> (r: bool)
        ensures
            r == (self@ == other@),
    ;
}

impl Key for String {
    fn same(&self, other: &String) -> (r: bool) {
        *self == *other
    }
}

/// A finite map from keys to values. Entries stay in the order in which their
/// keys came in.
#[derive(Debug)]
pub struct Table<K: Key, V> {
    entries: Vec<(K, V)>,
}

/// The keys of a sequence of entries.
spec fn keys_of<K: Key, V>(entries: Seq<(K, V)>) -> Seq<K::V> {
    entries.map_values(|e: (K, V)| e.0@)
}

/// The map that a sequence of entries writes down.
spec fn map_of<K: Key, V>(entries: Seq<(K, V)>) -> Map<K::V, V> {
    Map::new(
        |k: K::V| keys_of(entries).contains(k),
        |k: K::V| entries[keys_of(entries).index_of(k)].1,
    )
}

impl<K: Key, V> Table<K, V> {
    /// No key occurs twice.
    #[verifier::type_invariant]
    spec fn distinct(self) -> bool {
        keys_of(self.entries@).no_duplicates()
    }

    /// The keys in the order of the entries.
    pub closed spec fn keys(&self) -> Seq<K::V> {
        keys_of(self.entries@)
    }
}

impl<K: Key, V> View for Table<K, V> {
    type V = Map<K::V, V>;

    closed spec fn view(&self) -> Map<K::V, V> {
        map_of(self.entries@)
    }
}

/// Each entry of a sequence without repeated keys is the map's value at its key.
proof fn entry_in_map<K: Key, V>(entries: Seq<(K, V)>, i: int)
    requires
        keys_of(entries).no_duplicates(),
        0 <= i < entries.len(),
    ensures
        keys_of(entries)[i] == entries[i].0@,
        keys_of(entries).contains(entries[i].0@),
        map_of(entries).contains_key(entries[i].0@),
        map_of(entries)[entries[i].0@] == entries[i].1,
{
    let keys = keys_of(entries);
    assert(keys[i] == entries[i].0@);
    let j = keys.index_of(entries[i].0@);
    assert(keys.contains(keys[i]));
    assert(keys[j] == keys[i]);
    assert(i == j);
}

/// The map has a finite domain, of the size of the sequence.
proof fn map_size<K: Key, V>(entries: Seq<(K, V)>)
    requires
        keys_of(entries).no_duplicates(),
    ensures
        map_of(entries).dom().finite(),
        map_of(entries).dom() == keys_of(entries).to_set(),
        map_of(entries).len() == entries.len(),
{
    assert(map_of(entries).dom() =~= keys_of(entries).to_set());
    keys_of(entries).unique_seq_to_set();
}

impl<K: Key, V> Table<K, V> {
    /// An empty table.
    pub fn new() -> (t: Table<K, V>)
        ensures
            t@ == Map::<K::V, V>::empty(),
    {
        let entries: Vec<(K, V)> = Vec::new();
        assert(keys_of(entries@) =~= Seq::<K::V>::empty());
        assert(map_of(entries@) =~= Map::<K::V, V>::empty());
        Table { entries }
    }

    /// The number of entries.
    pub fn len(&self) -> (n: usize)
        ensures
            n == self.keys().len(),
            n == self@.len(),
            self@.dom().finite(),
            self.keys().no_duplicates(),
            forall|k: K::V| #[trigger] self@.contains_key(k) <==> self.keys().contains(k),
    {
        proof {
            use_type_invariant(self);
            map_size(self.entries@);
        }
        self.entries.len()
    }

    /// The place of a key.
    fn find(&self, key: &K) -> (r: Option<usize>)
        ensures
            match r {
                Some(i) => i < self.entries@.len() && self.entries@[i as int].0@ == key@,
                None => !keys_of(self.entries@).contains(key@),
            },
    {
        let mut i: usize = 0;
        while i < self.entries.len()
            invariant
                i <= self.entries@.len(),
                forall|j: int| 0 <= j < i ==> self.entries@[j].0@ != key@,
            decreases self.entries@.len() - i,
        {
            if self.entries[i].0.same(key) {
                return Some(i);
            }
            i = i + 1;
        }
        assert(!keys_of(self.entries@).contains(key@)) by {
            if keys_of(self.entries@).contains(key@) {
                let j = choose|j: int|
                    0 <= j < keys_of(self.entries@).len() && keys_of(self.entries@)[j] == key@;
                assert(self.entries@[j].0@ == key@);
            }
        }
        None
    }

    /// The value at a key.
    pub fn get(&self, key: &K) -> (r: Option<&V>)
        ensures
            match r {
                Some(v) => self@.contains_key(key@) && *v == self@[key@],
                None => !self@.contains_key(key@),
            },
    {
        proof {
            use_type_invariant(self);
        }
        match self.find(key) {
            Some(i) => {
                proof {
                    entry_in_map(self.entries@, i as int);
                }
                Some(&self.entries[i].1)
            },
            None => None,
        }
    }

    /// Whether there is an entry at a key.
    pub fn contains_key(&self, key: &K) -> (r: bool)
        ensures
            r == self@.contains_key(key@),
    {
        match self.get(key) {
            Some(_) => true,
            None => false,
        }
    }

    /// The key of the entry at place `i`.
    pub fn key_at(&self, i: usize) -> (k: &K)
        requires
            i < self.keys().len(),
        ensures
            k@ == self.keys()[i as int],
            self@.contains_key(k@),
    {
        proof {
            use_type_invariant(self);
            entry_in_map(self.entries@, i as int);
        }
        &self.entries[i].0
    }

    /// The value of the entry at place `i`.
    pub fn value_at(&self, i: usize) -> (v: &V)
        requires
            i < self.keys().len(),
        ensures
            self@.contains_key(self.keys()[i as int]),
            *v == self@[self.keys()[i as int]],
    {
        proof {
            use_type_invariant(self);
            entry_in_map(self.entries@, i as int);
        }
        &self.entries[i].1
    }

    /// Set the value at a key.
    pub fn insert(&mut self, key: K, value: V)
        ensures
            final(self)@ == old(self)@.insert(key@, value),
    {
        proof {
            use_type_invariant(&*self);
        }
        let found: Option<usize> = self.find(&key);
        let ghost before = self.entries@;
        let ghost k = key@;
        let mut entries: Vec<(K, V)> = Vec::new();
        assert(keys_of(entries@) =~= Seq::<K::V>::empty());
        std::mem::swap(&mut entries, &mut self.entries);
        match found {
            Some(i) => {
                entries.set(i, (key, value));
                proof {
                    assert(keys_of(entries@) =~= keys_of(before));
                    assert forall|q: K::V| keys_of(before).contains(q) implies map_of(entries@)[q]
                        == map_of(before).insert(k, value)[q] by {
                        let j = keys_of(before).index_of(q);
                        entry_in_map(before, j);
                        entry_in_map(entries@, j);
                        entry_in_map(before, i as int);
                        if j == i {
                            assert(q == k);
                        }
                    }
                    entry_in_map(before, i as int);
                    assert(map_of(entries@) =~= map_of(before).insert(k, value));
                }
            },
            None => {
                entries.push((key, value));
                proof {
                    assert(keys_of(entries@) =~= keys_of(before).push(k));
                    assert(keys_of(entries@).no_duplicates());
                    let n = before.len() as int;
                    entry_in_map(entries@, n);
                    assert forall|q: K::V| q != k implies keys_of(entries@).contains(q)
                        == keys_of(before).contains(q) by {
                        if keys_of(before).contains(q) {
                            let j = keys_of(before).index_of(q);
                            assert(keys_of(entries@)[j] == q);
                        }
                        if keys_of(entries@).contains(q) {
                            let j = keys_of(entries@).index_of(q);
                            assert(keys_of(before)[j] == q);
                        }
                    }
                    assert forall|q: K::V| keys_of(before).contains(q) implies map_of(entries@)[q]
                        == map_of(before)[q] by {
                        let j = keys_of(before).index_of(q);
                        entry_in_map(before, j);
                        entry_in_map(entries@, j);
                    }
                    assert(map_of(entries@) =~= map_of(before).insert(k, value));
                }
            },
        }
        self.entries = entries;
    }

    /// Remove the entry at place `i` and hand its value out.
    pub fn remove_at(&mut self, i: usize) -> (v: V)
        requires
            i < old(self).keys().len(),
        ensures
            v == old(self)@[old(self).keys()[i as int]],
            final(self)@ == old(self)@.remove(old(self).keys()[i as int]),
            final(self).keys() == old(self).keys().remove(i as int),
    {
        proof {
            use_type_invariant(&*self);
        }
        let ghost before = self.entries@;
        let ghost k = keys_of(before)[i as int];
        let mut entries: Vec<(K, V)> = Vec::new();
        assert(keys_of(entries@) =~= Seq::<K::V>::empty());
        std::mem::swap(&mut entries, &mut self.entries);
        let taken: (K, V) = entries.remove(i);
        proof {
            entry_in_map(before, i as int);
            let ks = keys_of(before);
            assert(keys_of(entries@) =~= ks.remove(i as int));
            assert forall|a: int, b: int|
                0 <= a < keys_of(entries@).len() && 0 <= b < keys_of(entries@).len() && a
                    != b implies keys_of(entries@)[a] != keys_of(entries@)[b] by {
                let aa = if a < i { a } else { a + 1 };
                let bb = if b < i { b } else { b + 1 };
                assert(ks[aa] != ks[bb]);
            }
            assert(keys_of(entries@).no_duplicates());
            assert forall|q: K::V| keys_of(entries@).contains(q) == (ks.contains(q) && q != k) by {
                if keys_of(entries@).contains(q) {
                    let j = keys_of(entries@).index_of(q);
                    let jj = if j < i { j } else { j + 1 };
                    assert(ks[jj] == q);
                    assert(ks[jj] != ks[i as int]);
                }
                if ks.contains(q) && q != k {
                    let j = ks.index_of(q);
                    assert(j != i);
                    let jj = if j < i { j } else { j - 1 };
                    assert(keys_of(entries@)[jj] == q);
                }
            }
            assert forall|q: K::V| keys_of(entries@).contains(q) implies map_of(entries@)[q]
                == map_of(before)[q] by {
                let j = keys_of(entries@).index_of(q);
                let jj = if j < i { j } else { j + 1 };
                entry_in_map(entries@, j);
                entry_in_map(before, jj);
                assert(entries@[j] == before[jj]);
            }
            assert(map_of(entries@) =~= map_of(before).remove(k));
        }
        self.entries = entries;
        taken.1
    }

    /// Remove the entry at a key, where there is one, and hand its value out.
    pub fn remove(&mut self, key: &K) -> (r: Option<V>)
        ensures
            final(self)@ == old(self)@.remove(key@),
            match r {
                Some(v) => old(self)@.contains_key(key@) && v == old(self)@[key@],
                None => !old(self)@.contains_key(key@),
            },
    {
        match self.find(key) {
            Some(i) => {
                proof {
                    use_type_invariant(&*self);
                    entry_in_map(self.entries@, i as int);
                }
                Some(self.remove_at(i))
            },
            None => {
                assert(self@ =~= self@.remove(key@));
                None
            },
        }
    }

    /// Remove all entries.
    pub fn clear(&mut self)
        ensures
            final(self)@ == Map::<K::V, V>::empty(),
    {
        let entries: Vec<(K, V)> = Vec::new();
        assert(keys_of(entries@) =~= Seq::<K::V>::empty());
        assert(map_of(entries@) =~= Map::<K::V, V>::empty());
        self.entries = entries;
    }
}

} // verus!
