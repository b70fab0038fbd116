//! A keyed table held in memory: the repository behind each entity map.

use vstd::prelude::*;

verus! {

/// A key whose run-time comparison is equality.
pub trait Key: Sized {
    /// Whether the two keys are equal.
    fn same(&self, other: &Self) -> (r: bool)
        ensures
            r == (*self == *other),
    ;
}

impl Key for u32 {
    fn same(&self, other: &Self) -> (r: bool) {
        *self == *other
    }
}

impl Key for u64 {
    fn same(&self, other: &Self) -> (r: bool) {
        *self == *other
    }
}

impl Key for (u32, u64) {
    fn same(&self, other: &Self) -> (r: bool) {
        self.0 == other.0 && self.1 == other.1
    }
}

impl Key for (u64, u64) {
    fn same(&self, other: &Self) -> (r: bool) {
        self.0 == other.0 && self.1 == other.1
    }
}

impl Key for [u8; 32] {
    fn same(&self, other: &Self) -> (r: bool) {
        let mut i: usize = 0;
        while i < 32
            invariant
                i <= 32,
                forall|j: int| 0 <= j < i ==> self[j] == other[j],
            decreases 32 - i,
        {
            if self[i] != other[i] {
                return false;
            }
            i += 1;
        }
        assert(*self =~= *other);
        true
    }
}

/// Whether entry `i` of `entries` is filed under `key`.
spec fn filed_at<K, V>(entries: Seq<(K, V)>, key: K, i: int) -> bool {
    0 <= i < entries.len() && entries[i].0 == key
}

/// The map that a sequence of entries stands for: each key that occurs, with
/// the value of an entry that holds it.
spec fn as_map<K, V>(entries: Seq<(K, V)>) -> Map<K, V> {
    Map::new(
        |k: K| exists|i: int| filed_at(entries, k, i),
        |k: K| entries[choose|i: int| filed_at(entries, k, i)].1,
    )
}

/// No key is held by two entries.
spec fn distinct_keys<K, V>(entries: Seq<(K, V)>) -> bool {
    forall|i: int, j: int|
        0 <= i < entries.len() && 0 <= j < entries.len() && i != j ==> (#[trigger] entries[i]).0
            != (#[trigger] entries[j]).0
}

/// A finite map from keys to values. Each key is held once.
pub struct Table<K: Key, V> {
    entries: Vec<(K, V)>,
}

impl<K: Key, V> View for Table<K, V> {
    type V = Map<K, V>;

    closed spec fn view(&self) -> Map<K, V> {
        as_map(self.entries@)
    }
}

impl<K: Key, V> Table<K, V> {
    #[verifier::type_invariant]
    spec fn well_formed(self) -> bool {
        distinct_keys(self.entries@)
    }

    /// The empty table.
    pub fn new() -> (table: Self)
        ensures
            table@ == Map::<K, V>::empty(),
    {
        let table = Table { entries: Vec::new() };
        assert(table@ =~= Map::<K, V>::empty());
        table
    }

    /// Where `key` is held, if it is.
    fn position(&self, key: &K) -> (r: Option<usize>)
        ensures
            match r {
                Some(i) => filed_at(self.entries@, *key, i as int),
                None => forall|j: int| !filed_at(self.entries@, *key, j),
            },
    {
        let mut i: usize = 0;
        while i < self.entries.len()
            invariant
                i <= self.entries@.len(),
                forall|j: int| 0 <= j < i ==> !filed_at(self.entries@, *key, j),
            decreases self.entries@.len() - i,
        {
            if self.entries[i].0.same(key) {
                return Some(i);
            }
            i += 1;
        }
        None
    }

    /// Whether a value is filed under `key`.
    pub fn contains_key(&self, key: &K) -> (r: bool)
        ensures
            r == self@.contains_key(*key),
    {
        self.position(key).is_some()
    }

    /// The value filed under `key`.
    pub fn get(&self, key: &K) -> (r: Option<&V>)
        ensures
            match r {
                Some(v) => self@.contains_key(*key) && *v == self@[*key],
                None => !self@.contains_key(*key),
            },
    {
        proof {
            use_type_invariant(self);
        }
        match self.position(key) {
            Some(i) => {
                assert(filed_at(self.entries@, *key, i as int));
                Some(&self.entries[i].1)
            },
            None => None,
        }
    }

    /// Files `value` under `key`, in place of what was filed there.
    pub fn insert(&mut self, key: K, value: V)
        ensures
            final(self)@ == old(self)@.insert(key, value),
    {
        proof {
            use_type_invariant(&*self);
        }
        let ghost before = self.entries@;
        let found = self.position(&key);
        let mut entries: Vec<(K, V)> = Vec::new();
        std::mem::swap(&mut self.entries, &mut entries);
        match found {
            Some(i) => {
                entries[i] = (key, value);
                proof {
                    lemma_as_map_update(before, i as int, value);
                }
            },
            None => {
                entries.push((key, value));
                proof {
                    lemma_as_map_push(before, key, value);
                }
            },
        }
        self.entries = entries;
    }

    /// Takes out what is filed under `key`, and hands it back.
    pub fn remove(&mut self, key: &K) -> (r: Option<V>)
        ensures
            final(self)@ == old(self)@.remove(*key),
            match r {
                Some(v) => old(self)@.contains_key(*key) && v == old(self)@[*key],
                None => !old(self)@.contains_key(*key),
            },
    {
        proof {
            use_type_invariant(&*self);
        }
        let ghost before = self.entries@;
        match self.position(key) {
            Some(i) => {
                let mut entries: Vec<(K, V)> = Vec::new();
                std::mem::swap(&mut self.entries, &mut entries);
                let entry = entries.remove(i);
                proof {
                    lemma_as_map_at(before, i as int);
                    lemma_as_map_remove(before, i as int);
                }
                self.entries = entries;
                Some(entry.1)
            },
            None => {
                assert(as_map(before) =~= as_map(before).remove(*key));
                None
            },
        }
    }
}

/// With distinct keys, a key is filed at one place only, and `as_map` gives
/// the value found there.
proof fn lemma_as_map_at<K, V>(entries: Seq<(K, V)>, i: int)
    requires
        distinct_keys(entries),
        0 <= i < entries.len(),
    ensures
        as_map(entries).contains_key(entries[i].0),
        as_map(entries)[entries[i].0] == entries[i].1,
{
    let k = entries[i].0;
    assert(filed_at(entries, k, i));
    let c = choose|j: int| filed_at(entries, k, j);
    assert(filed_at(entries, k, c));
    assert(c == i);
}

/// Writing a new value at place `i` inserts it under the key held there.
proof fn lemma_as_map_update<K, V>(entries: Seq<(K, V)>, i: int, value: V)
    requires
        distinct_keys(entries),
        0 <= i < entries.len(),
    ensures
        distinct_keys(entries.update(i, (entries[i].0, value))),
        as_map(entries.update(i, (entries[i].0, value))) == as_map(entries).insert(
            entries[i].0,
            value,
        ),
{
    let key = entries[i].0;
    let after = entries.update(i, (key, value));
    assert forall|a: int, b: int|
        0 <= a < after.len() && 0 <= b < after.len() && a != b implies (#[trigger] after[a]).0 != (
    #[trigger] after[b]).0 by {
        assert(entries[a].0 == after[a].0);
        assert(entries[b].0 == after[b].0);
    }
    assert forall|k: K| as_map(after).contains_key(k) <==> #[trigger] as_map(entries).insert(
        key,
        value,
    ).contains_key(k) by {
        if as_map(after).contains_key(k) {
            let j = choose|j: int| filed_at(after, k, j);
            assert(filed_at(entries, k, j));
        }
        if as_map(entries).contains_key(k) {
            let j = choose|j: int| filed_at(entries, k, j);
            assert(filed_at(after, k, j));
        }
        if k == key {
            assert(filed_at(after, k, i));
        }
    }
    assert forall|k: K| #[trigger] as_map(after).contains_key(k) implies as_map(after)[k]
        == as_map(entries).insert(key, value)[k] by {
        let j = choose|j: int| filed_at(after, k, j);
        lemma_as_map_at(after, j);
        if j != i {
            assert(filed_at(entries, k, j));
            lemma_as_map_at(entries, j);
        }
    }
    assert(as_map(after) =~= as_map(entries).insert(key, value));
}

/// Appending an entry under a key that is not yet held inserts it.
proof fn lemma_as_map_push<K, V>(entries: Seq<(K, V)>, key: K, value: V)
    requires
        distinct_keys(entries),
        forall|j: int| !filed_at(entries, key, j),
    ensures
        distinct_keys(entries.push((key, value))),
        as_map(entries.push((key, value))) == as_map(entries).insert(key, value),
{
    let after = entries.push((key, value));
    let n = entries.len() as int;
    assert forall|a: int, b: int|
        0 <= a < after.len() && 0 <= b < after.len() && a != b implies (#[trigger] after[a]).0 != (
    #[trigger] after[b]).0 by {
        if a < n {
            assert(!filed_at(entries, key, a));
        }
        if b < n {
            assert(!filed_at(entries, key, b));
        }
    }
    assert forall|k: K| as_map(after).contains_key(k) <==> #[trigger] as_map(entries).insert(
        key,
        value,
    ).contains_key(k) by {
        if as_map(after).contains_key(k) {
            let j = choose|j: int| filed_at(after, k, j);
            if j < n {
                assert(filed_at(entries, k, j));
            }
        }
        if as_map(entries).contains_key(k) {
            let j = choose|j: int| filed_at(entries, k, j);
            assert(filed_at(after, k, j));
        }
        if k == key {
            assert(filed_at(after, k, n));
        }
    }
    assert forall|k: K| #[trigger] as_map(after).contains_key(k) implies as_map(after)[k]
        == as_map(entries).insert(key, value)[k] by {
        let j = choose|j: int| filed_at(after, k, j);
        lemma_as_map_at(after, j);
        if j < n {
            assert(filed_at(entries, k, j));
            lemma_as_map_at(entries, j);
        }
    }
    assert(as_map(after) =~= as_map(entries).insert(key, value));
}

/// Dropping the entry at place `i` removes the key held there.
proof fn lemma_as_map_remove<K, V>(entries: Seq<(K, V)>, i: int)
    requires
        distinct_keys(entries),
        0 <= i < entries.len(),
    ensures
        distinct_keys(entries.remove(i)),
        as_map(entries.remove(i)) == as_map(entries).remove(entries[i].0),
{
    let key = entries[i].0;
    let after = entries.remove(i);
    assert forall|a: int, b: int|
        0 <= a < after.len() && 0 <= b < after.len() && a != b implies (#[trigger] after[a]).0 != (
    #[trigger] after[b]).0 by {
        let a0 = if a < i { a } else { a + 1 };
        let b0 = if b < i { b } else { b + 1 };
        assert(after[a] == entries[a0]);
        assert(after[b] == entries[b0]);
    }
    assert forall|k: K| as_map(after).contains_key(k) <==> #[trigger] as_map(entries).remove(
        key,
    ).contains_key(k) by {
        if as_map(after).contains_key(k) {
            let j = choose|j: int| filed_at(after, k, j);
            let j0 = if j < i { j } else { j + 1 };
            assert(after[j] == entries[j0]);
            assert(filed_at(entries, k, j0));
            assert(entries[j0].0 != entries[i].0);
        }
        if as_map(entries).contains_key(k) && k != key {
            let j = choose|j: int| filed_at(entries, k, j);
            let j1 = if j < i { j } else { j - 1 };
            assert(after[j1] == entries[j]);
            assert(filed_at(after, k, j1));
        }
    }
    assert forall|k: K| #[trigger] as_map(after).contains_key(k) implies as_map(after)[k]
        == as_map(entries).remove(key)[k] by {
        let j = choose|j: int| filed_at(after, k, j);
        lemma_as_map_at(after, j);
        let j0 = if j < i { j } else { j + 1 };
        assert(after[j] == entries[j0]);
        assert(filed_at(entries, k, j0));
        lemma_as_map_at(entries, j0);
    }
    assert(as_map(after) =~= as_map(entries).remove(key));
}

} // verus!
