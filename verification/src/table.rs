//! A small table with distinct keys, kept in the order of insertion.
//!
//! Its view is the list of its entries, each key and value by its view; the
//! module `keyed` says what finding, storing and dropping mean on such a list.

use crate::bytes::{copy_bytes, same_bytes};
use crate::keyed::{distinct_keys, has_key, lemma_index_of, lemma_put_distinct,
    lemma_without_distinct, lookup, put, without};
use vstd::prelude::*;

verus! {

/// What a table needs of its keys: to tell whether two are equal, and to copy one.
pub trait Key: View + Sized {
    /// Whether two keys are equal.
    fn same(&self, other: &Self) -> (same: bool)
        ensures
            same == (self@ == other@),
    ;

    /// A copy of the key.
    fn duplicate(&self) -> (copy: Self)
        ensures
            copy@ == self@,
    ;
}

impl Key for String {
    fn same(&self, other: &Self) -> (same: bool) {
        *self == *other
    }

    fn duplicate(&self) -> (copy: Self) {
        self.clone()
    }
}

impl Key for Vec<u8> {
    fn same(&self, other: &Self) -> (same: bool) {
        same_bytes(self.as_slice(), other.as_slice())
    }

    fn duplicate(&self) -> (copy: Self) {
        copy_bytes(self.as_slice())
    }
}

impl Key for [u8; 64] {
    fn same(&self, other: &Self) -> (same: bool) {
        same_bytes(self.as_slice(), other.as_slice())
    }

    fn duplicate(&self) -> (copy: Self) {
        *self
    }
}

/// A list of entries, each key and value by its view.
pub open spec fn entries_view<K: View, V: View>(entries: Seq<(K, V)>) -> Seq<(K::V, V::V)> {
    Seq::new(entries.len(), |i: int| (entries[i].0@, entries[i].1@))
}

/// Values under keys, no key twice.
pub struct Table<K: Key, V: View> {
    entries: Vec<(K, V)>,
}

impl<K: Key, V: View> View for Table<K, V> {
    type V = Seq<(K::V, V::V)>;

    closed spec fn view(&self) -> Self::V {
        entries_view(self.entries@)
    }
}

impl<K: Key, V: View> Table<K, V> {
    /// No key occurs twice.
    #[verifier::type_invariant]
    pub open spec fn wf(&self) -> bool {
        distinct_keys(self@)
    }

    /// The table without entries.
    pub fn new() -> (table: Self)
        ensures
            table@ == Seq::<(K::V, V::V)>::empty(),
    {
        assert(entries_view(Seq::<(K, V)>::empty()) =~= Seq::<(K::V, V::V)>::empty());
        Table { entries: Vec::new() }
    }

    /// The number of entries.
    pub fn len(&self) -> (n: usize)
        ensures
            n == self@.len(),
    {
        self.entries.len()
    }

    /// The entry at a position.
    pub fn entry(&self, i: usize) -> (entry: (&K, &V))
        requires
            i < self@.len(),
        ensures
            (entry.0@, entry.1@) == self@[i as int],
    {
        (&self.entries[i].0, &self.entries[i].1)
    }

    /// The position of a key.
    pub fn find(&self, key: &K) -> (found: Option<usize>)
        ensures
            found matches Some(i) ==> i < self@.len() && self@[i as int].0 == key@,
            found is None ==> !has_key(self@, key@),
    {
        let mut i: usize = 0;
        while i < self.entries.len()
            invariant
                i <= self.entries@.len(),
                self@.len() == self.entries@.len(),
                forall|j: int| 0 <= j < i ==> (#[trigger] self@[j]).0 != key@,
            decreases self.entries.len() - i,
        {
            if self.entries[i].0.same(key) {
                return Some(i);
            }
            i += 1;
        }
        None
    }

    /// The value under a key.
    pub fn get(&self, key: &K) -> (value: Option<&V>)
        ensures
            match value {
                Some(v) => lookup(self@, key@) == Some(v@),
                None => lookup(self@, key@) is None,
            },
    {
        match self.find(key) {
            Some(i) => {
                proof {
                    use_type_invariant(self);
                    lemma_index_of(self@, key@, i as int);
                }
                Some(&self.entries[i].1)
            },
            None => None,
        }
    }

    /// Stores a value under a key: in place of the value that the key had, or as a
    /// new entry at the end.
    pub fn insert(&mut self, key: K, value: V)
        ensures
            final(self)@ == put(old(self)@, key@, value@),
    {
        let ghost before = self@;
        proof {
            use_type_invariant(&*self);
            lemma_put_distinct(before, key@, value@);
        }
        let found = self.find(&key);
        let mut entries: Vec<(K, V)> = Vec::new();
        assert(entries_view(entries@) =~= Seq::<(K::V, V::V)>::empty());
        core::mem::swap(&mut self.entries, &mut entries);
        match found {
            Some(i) => {
                proof {
                    lemma_index_of(before, key@, i as int);
                }
                entries[i] = (key, value);
                assert(entries_view(entries@) =~= before.update(i as int, (key@, value@)));
            },
            None => {
                entries.push((key, value));
                assert(entries_view(entries@) =~= before.push((key@, value@)));
            },
        }
        core::mem::swap(&mut self.entries, &mut entries);
    }

    /// Drops the entry of a key, and says whether there was one. Dropping a key
    /// that is not there changes nothing.
    pub fn remove(&mut self, key: &K) -> (removed: bool)
        ensures
            final(self)@ == without(old(self)@, key@),
            removed == has_key(old(self)@, key@),
    {
        let ghost before = self@;
        proof {
            use_type_invariant(&*self);
            lemma_without_distinct(before, key@);
        }
        match self.find(key) {
            Some(i) => {
                proof {
                    lemma_index_of(before, key@, i as int);
                }
                let mut entries: Vec<(K, V)> = Vec::new();
                assert(entries_view(entries@) =~= Seq::<(K::V, V::V)>::empty());
                core::mem::swap(&mut self.entries, &mut entries);
                let _ = entries.remove(i);
                assert(entries_view(entries@) =~= before.remove(i as int));
                core::mem::swap(&mut self.entries, &mut entries);
                true
            },
            None => false,
        }
    }

    /// The keys, in the order in which the table holds them.
    pub fn keys(&self) -> (keys: Vec<K>)
        ensures
            keys@.len() == self@.len(),
            forall|i: int| 0 <= i < keys@.len() ==> (#[trigger] keys@[i])@ == self@[i].0,
    {
        let mut keys: Vec<K> = Vec::new();
        let mut i: usize = 0;
        while i < self.entries.len()
            invariant
                i <= self.entries@.len(),
                self@.len() == self.entries@.len(),
                keys@.len() == i,
                forall|j: int| 0 <= j < i ==> (#[trigger] keys@[j])@ == self@[j].0,
            decreases self.entries.len() - i,
        {
            keys.push(self.entries[i].0.duplicate());
            i += 1;
        }
        keys
    }
}

} // verus!
