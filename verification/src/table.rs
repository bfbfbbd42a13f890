//! A map that keeps its entries in the order in which their keys came.

use crate::json::Json;
use crate::json::JsonView;
use crate::text;
use vstd::prelude::*;

verus! {

/// What a `Table` can find its entries by.
pub trait Key: Sized {
    /// What two keys share where they stand for the same entry.
    type Identity;

    spec fn identity(&self) -> Self::Identity;

    /// Whether the two stand for the same entry.
    fn is_key(&self, other: &Self) -> (r: bool)
        ensures
            r == (self.identity() == other.identity()),
    ;
}

impl Key for String {
    type Identity = Seq<char>;

    open spec fn identity(&self) -> Seq<char> {
        self@
    }

    fn is_key(&self, other: &String) -> (r: bool) {
        text::same_text(self.as_str(), other.as_str())
    }
}

impl Key for Json {
    type Identity = JsonView;

    open spec fn identity(&self) -> JsonView {
        self@.unsigned_zeros()
    }

    fn is_key(&self, other: &Json) -> (r: bool) {
        self.same(other)
    }
}

impl Key for u64 {
    type Identity = u64;

    open spec fn identity(&self) -> u64 {
        *self
    }

    fn is_key(&self, other: &u64) -> (r: bool) {
        *self == *other
    }
}

/// A value that a `Table` keeps without looking into it.
pub struct Held<T> {
    pub value: T,
}

impl<T> View for Held<T> {
    type V = T;

    open spec fn view(&self) -> T {
        self.value
    }
}

/// A map from keys to values.
pub struct Table<K, T> {
    pub entries: Vec<(K, T)>,
}

/// The keys of `entries`.
pub open spec fn identities<K: Key, T>(entries: Seq<(K, T)>) -> Seq<K::Identity> {
    Seq::new(entries.len(), |i: int| entries[i].0.identity())
}

/// What `entries` map their keys to.
pub open spec fn mapping<K: Key, T: View>(entries: Seq<(K, T)>) -> Map<K::Identity, T::V> {
    Map::new(
        |k: K::Identity| identities(entries).contains(k),
        |k: K::Identity| entries[identities(entries).index_of(k)].1@,
    )
}

impl<K: Key, T: View> View for Table<K, T> {
    type V = Map<K::Identity, T::V>;

    open spec fn view(&self) -> Map<K::Identity, T::V> {
        mapping(self.entries@)
    }
}

/// Of entries with distinct keys, each stands in the mapping with its value, and nothing else
/// does.
pub proof fn lemma_mapping<K: Key, T: View>(entries: Seq<(K, T)>)
    requires
        identities(entries).no_duplicates(),
    ensures
        forall|i: int|
            0 <= i < entries.len() ==> mapping(entries).contains_key(
                (#[trigger] entries[i]).0.identity(),
            ) && mapping(entries)[entries[i].0.identity()] == entries[i].1@,
        forall|k: K::Identity| #[trigger]
            mapping(entries).contains_key(k) ==> exists|i: int|
                0 <= i < entries.len() && (#[trigger] entries[i]).0.identity() == k,
{
    let ids = identities(entries);
    assert forall|i: int| 0 <= i < entries.len() implies mapping(entries).contains_key(
        (#[trigger] entries[i]).0.identity(),
    ) && mapping(entries)[entries[i].0.identity()] == entries[i].1@ by {
        let k = entries[i].0.identity();
        assert(ids[i] == k);
        assert(ids.contains(k));
        let j = ids.index_of(k);
        assert(ids[j] == ids[i]);
        assert(i == j);
    }
    assert forall|k: K::Identity| #[trigger] mapping(entries).contains_key(k) implies exists|i: int|
        0 <= i < entries.len() && (#[trigger] entries[i]).0.identity() == k by {
        let j = choose|j: int| 0 <= j < ids.len() && ids[j] == k;
        assert(entries[j].0.identity() == k);
    }
}

impl<K: Key, T: View> Table<K, T> {
    /// No key occurs twice.
    pub open spec fn well_formed(self) -> bool {
        identities(self.entries@).no_duplicates()
    }

    /// A table without entries.
    pub fn new() -> (r: Self)
        ensures
            r.well_formed(),
            r.entries@.len() == 0,
            r@ == Map::<K::Identity, T::V>::empty(),
    {
        let r = Table { entries: Vec::new() };
        proof {
            lemma_mapping(r.entries@);
        }
        r
    }

    /// The number of the entry with the key `key`.
    pub fn position(&self, key: &K) -> (r: Option<usize>)
        requires
            self.well_formed(),
        ensures
            (match r {
                Some(i) => i < self.entries@.len() && self.entries@[i as int].0.identity()
                    == key.identity() && self@.contains_key(key.identity())
                    && self@[key.identity()] == self.entries@[i as int].1@,
                None => !self@.contains_key(key.identity()),
            }),
    {
        proof {
            lemma_mapping(self.entries@);
        }
        let mut i: usize = 0;
        while i < self.entries.len()
            invariant
                i <= self.entries@.len(),
                self.well_formed(),
                forall|j: int|
                    0 <= j < i ==> (#[trigger] self.entries@[j]).0.identity() != key.identity(),
            decreases self.entries@.len() - i,
        {
            if self.entries[i].0.is_key(key) {
                proof {
                    lemma_mapping(self.entries@);
                }
                return Some(i);
            }
            i += 1;
        }
        None
    }

    /// Whether there is an entry with the key `key`.
    pub fn has(&self, key: &K) -> (r: bool)
        requires
            self.well_formed(),
        ensures
            r == self@.contains_key(key.identity()),
    {
        self.position(key).is_some()
    }

    /// What `key` maps to.
    pub fn get(&self, key: &K) -> (r: Option<&T>)
        requires
            self.well_formed(),
        ensures
            (match r {
                Some(value) => self@.contains_key(key.identity()) && self@[key.identity()]
                    == value@,
                None => !self@.contains_key(key.identity()),
            }),
    {
        match self.position(key) {
            Some(i) => Some(&self.entries[i].1),
            None => None,
        }
    }

    /// Maps `key` to `value`, and hands out what it was mapped to before.
    pub fn insert(&mut self, key: K, value: T) -> (r: Option<T>)
        requires
            old(self).well_formed(),
        ensures
            final(self).well_formed(),
            final(self)@ == old(self)@.insert(key.identity(), value@),
            (match r {
                Some(previous) => old(self)@.contains_key(key.identity())
                    && old(self)@[key.identity()] == previous@,
                None => !old(self)@.contains_key(key.identity()),
            }),
    {
        let ghost before = self.entries@;
        proof {
            lemma_mapping(before);
        }
        match self.position(&key) {
            Some(i) => {
                let mut value = value;
                let ghost put = value;
                std::mem::swap(&mut self.entries[i].1, &mut value);
                proof {
                    assert(self.entries@ == before.update(i as int, (before[i as int].0, put)));
                    lemma_set_entry(before, i as int, put);
                }
                Some(value)
            },
            None => {
                self.entries.push((key, value));
                proof {
                    lemma_push_entry(before, key, value);
                }
                None
            },
        }
    }

    /// Takes the entry `i` out.
    pub fn remove_at(&mut self, i: usize) -> (r: (K, T))
        requires
            old(self).well_formed(),
            i < old(self).entries@.len(),
        ensures
            final(self).well_formed(),
            final(self).entries@ == old(self).entries@.remove(i as int),
            r == old(self).entries@[i as int],
            final(self)@ == old(self)@.remove(r.0.identity()),
            old(self)@.contains_key(r.0.identity()),
            old(self)@[r.0.identity()] == r.1@,
    {
        let ghost before = self.entries@;
        let r = self.entries.remove(i);
        proof {
            lemma_mapping(before);
            lemma_remove_entry(before, i as int);
        }
        r
    }

    /// Takes the entry with the key `key` out, and hands out what it held.
    pub fn remove(&mut self, key: &K) -> (r: Option<T>)
        requires
            old(self).well_formed(),
        ensures
            final(self).well_formed(),
            final(self)@ == old(self)@.remove(key.identity()),
            (match r {
                Some(value) => old(self)@.contains_key(key.identity())
                    && old(self)@[key.identity()] == value@,
                None => !old(self)@.contains_key(key.identity()),
            }),
    {
        match self.position(key) {
            Some(i) => Some(self.remove_at(i).1),
            None => {
                assert(self@.remove(key.identity()) =~= self@);
                None
            },
        }
    }
}

/// Where one value changes and no key does, so does the mapping.
pub proof fn lemma_set_entry<K: Key, T: View>(entries: Seq<(K, T)>, i: int, value: T)
    requires
        identities(entries).no_duplicates(),
        0 <= i < entries.len(),
    ensures
        identities(entries.update(i, (entries[i].0, value))) == identities(entries),
        mapping(entries.update(i, (entries[i].0, value))) == mapping(entries).insert(
            entries[i].0.identity(),
            value@,
        ),
{
    let after = entries.update(i, (entries[i].0, value));
    assert(identities(after) =~= identities(entries));
    lemma_mapping(entries);
    lemma_mapping(after);
    assert(mapping(after) =~= mapping(entries).insert(entries[i].0.identity(), value@)) by {
        assert forall|k: K::Identity| #[trigger] mapping(after).contains_key(k) implies mapping(
            after,
        )[k] == mapping(entries).insert(entries[i].0.identity(), value@)[k] by {
            let j = choose|j: int| 0 <= j < after.len() && (#[trigger] after[j]).0.identity() == k;
            assert(after[j].1@ == mapping(after)[k]);
            if j != i {
                assert(after[j] == entries[j]);
                assert(identities(entries)[i] != identities(entries)[j]);
            }
        }
    }
}

proof fn lemma_push_entry<K: Key, T: View>(entries: Seq<(K, T)>, key: K, value: T)
    requires
        identities(entries).no_duplicates(),
        !mapping(entries).contains_key(key.identity()),
    ensures
        identities(entries.push((key, value))).no_duplicates(),
        mapping(entries.push((key, value))) == mapping(entries).insert(key.identity(), value@),
{
    let after = entries.push((key, value));
    lemma_mapping(entries);
    assert(identities(after) =~= identities(entries).push(key.identity()));
    assert forall|i: int, j: int|
        0 <= i < after.len() && 0 <= j < after.len() && i != j implies identities(after)[i]
        != identities(after)[j] by {
        if i == entries.len() {
            assert(entries[j].0.identity() == identities(after)[j]);
        } else if j == entries.len() {
            assert(entries[i].0.identity() == identities(after)[i]);
        } else {
            assert(identities(entries)[i] != identities(entries)[j]);
        }
    }
    lemma_mapping(after);
    assert(after[entries.len() as int].0 == key);
    assert(mapping(after) =~= mapping(entries).insert(key.identity(), value@)) by {
        assert forall|k: K::Identity| mapping(entries).contains_key(k) implies (
        #[trigger] mapping(after).contains_key(k)) && mapping(after)[k] == mapping(entries)[k] by {
            let j = choose|j: int|
                0 <= j < entries.len() && (#[trigger] entries[j]).0.identity() == k;
            assert(after[j] == entries[j]);
        }
        assert forall|k: K::Identity| #[trigger] mapping(after).contains_key(k) implies mapping(
            entries,
        ).contains_key(k) || k == key.identity() by {
            let j = choose|j: int| 0 <= j < after.len() && (#[trigger] after[j]).0.identity() == k;
            if j < entries.len() {
                assert(after[j] == entries[j]);
            }
        }
    }
}

proof fn lemma_remove_entry<K: Key, T: View>(entries: Seq<(K, T)>, i: int)
    requires
        identities(entries).no_duplicates(),
        0 <= i < entries.len(),
    ensures
        identities(entries.remove(i)).no_duplicates(),
        mapping(entries.remove(i)) == mapping(entries).remove(entries[i].0.identity()),
{
    let after = entries.remove(i);
    let ids = identities(entries);
    assert(identities(after) =~= ids.remove(i));
    assert forall|a: int, b: int|
        0 <= a < after.len() && 0 <= b < after.len() && a != b implies identities(after)[a]
        != identities(after)[b] by {
        let old_a = if a < i {
            a
        } else {
            a + 1
        };
        let old_b = if b < i {
            b
        } else {
            b + 1
        };
        assert(ids[old_a] != ids[old_b]);
    }
    lemma_mapping(entries);
    lemma_mapping(after);
    let key = entries[i].0.identity();
    assert(mapping(after) =~= mapping(entries).remove(key)) by {
        assert forall|k: K::Identity| #[trigger] mapping(after).contains_key(k) implies mapping(
            entries,
        ).remove(key).contains_key(k) && mapping(after)[k] == mapping(entries)[k] by {
            let j = choose|j: int| 0 <= j < after.len() && (#[trigger] after[j]).0.identity() == k;
            let old_j = if j < i {
                j
            } else {
                j + 1
            };
            assert(after[j] == entries[old_j]);
            assert(ids[old_j] != ids[i]);
        }
        assert forall|k: K::Identity| #[trigger] mapping(entries).contains_key(k) && k
            != key implies mapping(after).contains_key(k) by {
            let j = choose|j: int|
                0 <= j < entries.len() && (#[trigger] entries[j]).0.identity() == k;
            let new_j = if j < i {
                j
            } else {
                j - 1
            };
            assert(after[new_j] == entries[j]);
        }
    }
}

/// Where each value changes by `f` and no key does, so does the mapping.
pub proof fn lemma_mapping_map<K: Key, T: View>(
    before: Seq<(K, T)>,
    after: Seq<(K, T)>,
    f: spec_fn(T::V) -> T::V,
)
    requires
        identities(before).no_duplicates(),
        after.len() == before.len(),
        forall|i: int|
            0 <= i < before.len() ==> (#[trigger] after[i]).0 == before[i].0 && after[i].1@ == f(
                before[i].1@,
            ),
    ensures
        identities(after) == identities(before),
        mapping(after) == mapping(before).map_values(f),
{
    assert(identities(after) =~= identities(before));
    lemma_mapping(before);
    lemma_mapping(after);
    assert forall|k: K::Identity| #[trigger] mapping(after).contains_key(k) implies mapping(
        before,
    ).contains_key(k) && mapping(after)[k] == f(mapping(before)[k]) by {
        let j = choose|j: int| 0 <= j < after.len() && (#[trigger] after[j]).0.identity() == k;
        assert(before[j].0.identity() == k);
    }
    assert forall|k: K::Identity| #[trigger] mapping(before).contains_key(k) implies mapping(
        after,
    ).contains_key(k) by {
        let j = choose|j: int| 0 <= j < before.len() && (#[trigger] before[j]).0.identity() == k;
        assert(after[j].0.identity() == k);
    }
    assert(mapping(after) =~= mapping(before).map_values(f));
}

} // verus!
