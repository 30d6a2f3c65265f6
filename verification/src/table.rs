//! Small keyed collections: a map and a set that keep their keys in the order
//! in which they came.

use vstd::prelude::*;

verus! {

/// A key that can be compared.
pub trait Key: Copy {
    fn same(&self, other: &Self) -> (same: bool)
        ensures
            same == (*self == *other),
    ;
}

/// The keys of a list of entries.
pub open spec fn keys_of<K, V>(entries: Seq<(K, V)>) -> Seq<K> {
    entries.map_values(|entry: (K, V)| entry.0)
}

/// The map that a list of entries stands for.
pub open spec fn map_of<K, V>(entries: Seq<(K, V)>) -> Map<K, V> {
    Map::new(
        |key: K| keys_of(entries).contains(key),
        |key: K| entries[keys_of(entries).index_of(key)].1,
    )
}

/// The entries once a key was bound to a value. A key that was there keeps its
/// place.
pub open spec fn put_entry<K, V>(entries: Seq<(K, V)>, key: K, value: V) -> Seq<(K, V)> {
    if keys_of(entries).contains(key) {
        entries.update(keys_of(entries).index_of(key), (key, value))
    } else {
        entries.push((key, value))
    }
}

/// A map from keys to values, no key of which occurs twice.
#[derive(Debug)]
pub struct Table<K, V> {
    entries: Vec<(K, V)>,
}

impl<K, V> Table<K, V> {
    #[verifier::type_invariant]
    spec fn keys_are_unique(self) -> bool {
        keys_of(self.entries@).no_duplicates()
    }

    /// The entries, in the order in which their keys came.
    pub closed spec fn entries(self) -> Seq<(K, V)> {
        self.entries@
    }

    pub open spec fn view(self) -> Map<K, V> {
        map_of(self.entries())
    }

    pub fn new() -> (table: Self)
        ensures
            table.entries() == Seq::<(K, V)>::empty(),
            table@ == Map::<K, V>::empty(),
    {
        let table = Table { entries: Vec::new() };
        assert(table@ =~= Map::<K, V>::empty());
        table
    }

    /// The number of keys. The entries list each key of the map once, with the
    /// value that the map has for it.
    pub fn len(&self) -> (len: usize)
        ensures
            len == self.entries().len(),
            len == self@.dom().len(),
            self@.dom().finite(),
            keys_of(self.entries()).no_duplicates(),
            keys_of(self.entries()).to_set() == self@.dom(),
            forall|i: int|
                0 <= i < self.entries().len() ==> self@.contains_pair(
                    (#[trigger] self.entries()[i]).0,
                    self.entries()[i].1,
                ),
    {
        proof {
            use_type_invariant(self);
            lemma_map_of(self.entries());
        }
        self.entries.len()
    }

    pub fn is_empty(&self) -> (empty: bool)
        ensures
            empty == (self@ == Map::<K, V>::empty()),
    {
        proof {
            use_type_invariant(&*self);
            lemma_map_of(self.entries());
            if self.entries@.len() > 0 {
                assert(self@.dom().contains(self.entries@[0].0));
            } else {
                assert(self@ =~= Map::<K, V>::empty());
            }
        }
        self.entries.len() == 0
    }

    /// The entry that came at the given place.
    pub fn at(&self, i: usize) -> (entry: (&K, &V))
        requires
            i < self.entries().len(),
        ensures
            *entry.0 == self.entries()[i as int].0,
            *entry.1 == self.entries()[i as int].1,
    {
        let entry = &self.entries[i];
        (&entry.0, &entry.1)
    }
}

impl<K: Key, V> Table<K, V> {
    /// The entries, out of the table that held them.
    fn take_entries(&mut self) -> (entries: Vec<(K, V)>)
        ensures
            entries@ == old(self).entries(),
            keys_of(entries@).no_duplicates(),
    {
        let mut table = Table::new();
        core::mem::swap(self, &mut table);
        proof {
            use_type_invariant(&table);
        }
        table.entries
    }

    fn position(&self, key: &K) -> (position: Option<usize>)
        ensures
            match position {
                Some(i) => i < self.entries@.len() && self.entries@[i as int].0 == *key,
                None => !self@.dom().contains(*key),
            },
    {
        let mut i: usize = 0;
        while i < self.entries.len()
            invariant
                i <= self.entries@.len(),
                forall|j: int| 0 <= j < i ==> (#[trigger] self.entries@[j]).0 != *key,
            decreases self.entries@.len() - i,
        {
            if self.entries[i].0.same(key) {
                return Some(i);
            }
            i += 1;
        }
        proof {
            if keys_of(self.entries@).contains(*key) {
                let j = keys_of(self.entries@).index_of(*key);
                assert(self.entries@[j].0 == *key);
            }
        }
        None
    }

    pub fn contains_key(&self, key: &K) -> (contains: bool)
        ensures
            contains == self@.dom().contains(*key),
    {
        proof {
            use_type_invariant(&*self);
            lemma_map_of(self.entries());
        }
        self.position(key).is_some()
    }

    pub fn get(&self, key: &K) -> (value: Option<&V>)
        ensures
            match value {
                Some(value) => self@.contains_pair(*key, *value),
                None => !self@.dom().contains(*key),
            },
    {
        proof {
            use_type_invariant(&*self);
            lemma_map_of(self.entries());
        }
        match self.position(key) {
            Some(i) => Some(&self.entries[i].1),
            None => None,
        }
    }

    /// Bind a key to a value, and give back the value that it had. A key that
    /// was there keeps its place.
    pub fn insert(&mut self, key: K, value: V) -> (replaced: Option<V>)
        ensures
            final(self)@ == old(self)@.insert(key, value),
            final(self).entries() == put_entry(old(self).entries(), key, value),
            match replaced {
                Some(replaced) => old(self)@.contains_pair(key, replaced),
                None => !old(self)@.dom().contains(key),
            },
    {
        proof {
            use_type_invariant(&*self);
            lemma_map_of(self.entries());
        }
        let ghost before = self.entries@;
        match self.position(&key) {
            Some(i) => {
                let mut entry = (key, value);
                proof {
                    assert(keys_of(before.update(i as int, entry)) =~= keys_of(before));
                    lemma_map_of(before);
                    lemma_map_of(before.update(i as int, entry));
                    lemma_updated(before, i as int, entry);
                    assert(keys_of(before)[i as int] == key);
                    assert(keys_of(before).index_of(key) == i);
                }
                let mut entries = self.take_entries();
                entries.set_and_swap(i, &mut entry);
                *self = Table { entries };
                Some(entry.1)
            },
            None => {
                let entry = (key, value);
                proof {
                    lemma_pushed(before, entry);
                    lemma_dom(before);
                }
                let mut entries = self.take_entries();
                entries.push(entry);
                *self = Table { entries };
                None
            },
        }
    }

    /// Take a key out, and give back the value that it had.
    pub fn remove(&mut self, key: &K) -> (removed: Option<V>)
        ensures
            final(self)@ == old(self)@.remove(*key),
            match removed {
                Some(removed) => old(self)@.contains_pair(*key, removed),
                None => !old(self)@.dom().contains(*key),
            },
    {
        proof {
            use_type_invariant(&*self);
            lemma_map_of(self.entries());
        }
        let ghost before = self.entries@;
        match self.position(key) {
            Some(i) => {
                proof {
                    lemma_removed(before, i as int);
                }
                let mut entries = self.take_entries();
                let entry = entries.remove(i);
                *self = Table { entries };
                Some(entry.1)
            },
            None => {
                proof {
                    assert(self@.remove(*key) =~= self@);
                }
                None
            },
        }
    }
}

/// The map of a list without repeated keys holds exactly its entries.
pub proof fn lemma_map_of<K, V>(entries: Seq<(K, V)>)
    requires
        keys_of(entries).no_duplicates(),
    ensures
        keys_of(entries).to_set() == map_of(entries).dom(),
        forall|i: int|
            0 <= i < entries.len() ==> map_of(entries).contains_pair(
                (#[trigger] entries[i]).0,
                entries[i].1,
            ),
        map_of(entries).dom().finite(),
        map_of(entries).dom().len() == entries.len(),
{
    let keys = keys_of(entries);
    assert(keys.to_set() =~= map_of(entries).dom());
    keys.unique_seq_to_set();
    assert forall|i: int| 0 <= i < entries.len() implies map_of(entries).contains_pair(
        (#[trigger] entries[i]).0,
        entries[i].1,
    ) by {
        assert(keys[i] == entries[i].0);
        let j = keys.index_of(entries[i].0);
        assert(keys[j] == keys[i]);
    }
}

proof fn lemma_updated<K, V>(entries: Seq<(K, V)>, i: int, entry: (K, V))
    requires
        keys_of(entries).no_duplicates(),
        0 <= i < entries.len(),
        entries[i].0 == entry.0,
    ensures
        keys_of(entries.update(i, entry)).no_duplicates(),
        map_of(entries.update(i, entry)) == map_of(entries).insert(entry.0, entry.1),
{
    let after = entries.update(i, entry);
    assert(keys_of(after) =~= keys_of(entries));
    lemma_map_of(entries);
    lemma_map_of(after);
    assert(keys_of(entries)[i] == entry.0);
    assert(map_of(after).dom() =~= map_of(entries).insert(entry.0, entry.1).dom());
    assert forall|key: K| map_of(after).dom().contains(key) implies map_of(after)[key] == map_of(
        entries,
    ).insert(entry.0, entry.1)[key] by {
        let j = keys_of(after).index_of(key);
        assert(after[j].0 == key);
        assert(entries[j].0 == key);
        assert(after[i].0 == entry.0);
    }
    assert(map_of(after) =~= map_of(entries).insert(entry.0, entry.1));
}

proof fn lemma_pushed<K, V>(entries: Seq<(K, V)>, entry: (K, V))
    requires
        keys_of(entries).no_duplicates(),
        !map_of(entries).dom().contains(entry.0),
    ensures
        keys_of(entries.push(entry)).no_duplicates(),
        map_of(entries.push(entry)) == map_of(entries).insert(entry.0, entry.1),
{
    let after = entries.push(entry);
    assert(keys_of(after) =~= keys_of(entries).push(entry.0));
    assert forall|i: int, j: int|
        0 <= i < after.len() && 0 <= j < after.len() && i != j implies keys_of(after)[i] != keys_of(
        after,
    )[j] by {
        if i < entries.len() {
            assert(keys_of(after)[i] == keys_of(entries)[i]);
        }
        if j < entries.len() {
            assert(keys_of(after)[j] == keys_of(entries)[j]);
        }
    }
    lemma_map_of(entries);
    lemma_map_of(after);
    assert forall|key: K| map_of(after).dom().contains(key) <==> map_of(entries).insert(
        entry.0,
        entry.1,
    ).dom().contains(key) by {
        if map_of(after).dom().contains(key) {
            let j = keys_of(after).index_of(key);
            if j < entries.len() {
                assert(keys_of(entries)[j] == key);
            }
        }
        if map_of(entries).dom().contains(key) {
            let j = keys_of(entries).index_of(key);
            assert(keys_of(after)[j] == key);
        }
        assert(keys_of(after)[entries.len() as int] == entry.0);
    }
    assert forall|key: K| map_of(after).dom().contains(key) implies map_of(after)[key] == map_of(
        entries,
    ).insert(entry.0, entry.1)[key] by {
        let j = keys_of(after).index_of(key);
        assert(after[j].0 == key);
        if j < entries.len() {
            assert(entries[j].0 == key);
        }
    }
    assert(map_of(after) =~= map_of(entries).insert(entry.0, entry.1));
}

proof fn lemma_removed<K, V>(entries: Seq<(K, V)>, i: int)
    requires
        keys_of(entries).no_duplicates(),
        0 <= i < entries.len(),
    ensures
        keys_of(entries.remove(i)).no_duplicates(),
        map_of(entries.remove(i)) == map_of(entries).remove(entries[i].0),
{
    let after = entries.remove(i);
    let key_out = entries[i].0;
    assert(keys_of(after) =~= keys_of(entries).remove(i));
    assert forall|a: int, b: int|
        0 <= a < after.len() && 0 <= b < after.len() && a != b implies keys_of(after)[a] != keys_of(
        after,
    )[b] by {
        let a0 = if a < i { a } else { a + 1 };
        let b0 = if b < i { b } else { b + 1 };
        assert(keys_of(after)[a] == keys_of(entries)[a0]);
        assert(keys_of(after)[b] == keys_of(entries)[b0]);
    }
    lemma_map_of(entries);
    lemma_map_of(after);
    assert forall|key: K| map_of(after).dom().contains(key) <==> map_of(entries).remove(
        key_out,
    ).dom().contains(key) by {
        if map_of(after).dom().contains(key) {
            let j = keys_of(after).index_of(key);
            let j0 = if j < i { j } else { j + 1 };
            assert(keys_of(after)[j] == keys_of(entries)[j0]);
            assert(keys_of(entries)[i] == key_out);
        }
        if map_of(entries).dom().contains(key) && key != key_out {
            let j = keys_of(entries).index_of(key);
            let j1 = if j < i { j } else { j - 1 };
            assert(keys_of(entries)[j] == key);
            assert(keys_of(entries)[i] == key_out);
            assert(keys_of(after)[j1] == key);
        }
    }
    assert forall|key: K| map_of(after).dom().contains(key) implies map_of(after)[key] == map_of(
        entries,
    ).remove(key_out)[key] by {
        let j = keys_of(after).index_of(key);
        let j0 = if j < i { j } else { j + 1 };
        assert(after[j].0 == key);
        assert(entries[j0].0 == key);
    }
    assert(map_of(after) =~= map_of(entries).remove(key_out));
}

/// The domain of the map of a list is the set of its keys.
proof fn lemma_dom<K, V>(entries: Seq<(K, V)>)
    ensures
        map_of(entries).dom() == keys_of(entries).to_set(),
{
    assert(map_of(entries).dom() =~= keys_of(entries).to_set());
}

/// A set of keys, in the order in which they came.
#[derive(Debug)]
pub struct KeySet<K> {
    table: Table<K, ()>,
}

impl<K> KeySet<K> {
    /// The keys, in the order in which they came.
    pub closed spec fn keys(self) -> Seq<K> {
        keys_of(self.table.entries())
    }

    pub open spec fn view(self) -> Set<K> {
        self.keys().to_set()
    }

    pub fn new() -> (set: Self)
        ensures
            set.keys() == Seq::<K>::empty(),
            set@ == Set::<K>::empty(),
    {
        let set = KeySet { table: Table::new() };
        assert(set.keys() =~= Seq::<K>::empty());
        assert(set@ =~= Set::<K>::empty());
        set
    }

    /// The number of keys, none of which is listed twice.
    pub fn len(&self) -> (len: usize)
        ensures
            len == self.keys().len(),
            len == self@.len(),
            self@.finite(),
            self.keys().no_duplicates(),
    {
        self.table.len()
    }

    /// The key that came at the given place.
    pub fn at(&self, i: usize) -> (key: &K)
        requires
            i < self.keys().len(),
        ensures
            *key == self.keys()[i as int],
    {
        self.table.at(i).0
    }
}

impl<K: Key> Clone for KeySet<K> {
    fn clone(&self) -> (set: Self)
        ensures
            set@ == self@,
    {
        let mut set = KeySet::new();
        let len = self.len();
        let mut i: usize = 0;
        while i < len
            invariant
                i <= len,
                len == self.keys().len(),
                set@ == self.keys().take(i as int).to_set(),
            decreases len - i,
        {
            let key = *self.at(i);
            proof {
                lemma_take_to_set(self.keys(), i as int);
            }
            set.insert(key);
            i += 1;
        }
        assert(self.keys().take(len as int) =~= self.keys());
        set
    }
}

/// Taking one item more of a list puts it into the set of the items taken.
pub proof fn lemma_take_to_set<A>(items: Seq<A>, i: int)
    requires
        0 <= i < items.len(),
    ensures
        items.take(i + 1).to_set() == items.take(i).to_set().insert(items[i]),
{
    let more = items.take(i + 1);
    assert(more =~= items.take(i).push(items[i]));
    assert forall|a: A| more.to_set().contains(a) == items.take(i).to_set().insert(
        items[i],
    ).contains(a) by {
        if items.take(i).contains(a) {
            let j = items.take(i).index_of(a);
            assert(more[j] == a);
        }
        if more.contains(a) {
            let j = more.index_of(a);
            if j < i {
                assert(items.take(i)[j] == a);
            }
        }
        assert(more[i] == items[i]);
    }
    assert(more.to_set() =~= items.take(i).to_set().insert(items[i]));
}

impl<K: Key> KeySet<K> {
    pub fn contains(&self, key: &K) -> (contains: bool)
        ensures
            contains == self@.contains(*key),
    {
        proof {
            lemma_dom(self.table.entries());
        }
        self.table.contains_key(key)
    }

    /// Put a key in. Says whether it was missing.
    pub fn insert(&mut self, key: K) -> (inserted: bool)
        ensures
            final(self)@ == old(self)@.insert(key),
            inserted == !old(self)@.contains(key),
    {
        proof {
            lemma_dom(self.table.entries());
        }
        let inserted = self.table.insert(key, ()).is_none();
        proof {
            lemma_dom(self.table.entries());
            assert(self@ =~= old(self)@.insert(key));
        }
        inserted
    }

    /// Take a key out. Says whether it was there.
    pub fn remove(&mut self, key: &K) -> (removed: bool)
        ensures
            final(self)@ == old(self)@.remove(*key),
            removed == old(self)@.contains(*key),
    {
        proof {
            lemma_dom(self.table.entries());
        }
        let removed = self.table.remove(key).is_some();
        proof {
            lemma_dom(self.table.entries());
            assert(self@ =~= old(self)@.remove(*key));
        }
        removed
    }
}

} // verus!
