//! A string-keyed map that keeps its entries in rows.
//!
//! Lookups go through a hash index, so they take constant time; the rows make
//! it possible to walk the entries in a fixed order (that of first insertion),
//! which a plain hash map does not offer to verified code.

use vstd::hash_map::StringHashMap;
use vstd::prelude::*;

verus! {

/// A finite map from strings to values.
///
/// The view is a `Map<Seq<char>, V>`. Every operation asks for [`Table::wf`],
/// which [`Table::new`] establishes and every operation keeps.
pub struct Table<V> {
    /// For each key, the row that holds it.
    slots: StringHashMap<usize>,
    /// The entries, in the order in which their keys first arrived.
    rows: Vec<(String, V)>,
}

impl<V> View for Table<V> {
    type V = Map<Seq<char>, V>;

    closed spec fn view(&self) -> Map<Seq<char>, V> {
        Map::new(
            |k: Seq<char>| self.slots@.contains_key(k),
            |k: Seq<char>| self.rows@[self.slots@[k] as int].1,
        )
    }
}

impl<V> Table<V> {
    /// The index and the rows describe the same entries.
    pub closed spec fn wf(&self) -> bool {
        &&& forall|k: Seq<char>| #[trigger]
            self.slots@.contains_key(k) ==> (self.slots@[k] as int) < self.rows@.len()
                && self.rows@[self.slots@[k] as int].0@ == k
        &&& forall|i: int|
            0 <= i < self.rows@.len() ==> self.slots@.contains_key((#[trigger] self.rows@[i]).0@)
                && self.slots@[self.rows@[i].0@] == i
    }

    /// The keys, row by row.
    pub closed spec fn keys(&self) -> Seq<Seq<char>> {
        Seq::new(self.rows@.len(), |i: int| self.rows@[i].0@)
    }

    /// The row of a key that the table holds.
    pub closed spec fn row_of(&self, k: Seq<char>) -> int {
        self.slots@[k] as int
    }

    /// How the rows relate to the view: each key of the map sits in exactly
    /// one row, and each row holds a key of the map.
    pub proof fn lemma_rows(&self)
        requires
            self.wf(),
        ensures
            self.keys().len() <= usize::MAX,
            self.keys().no_duplicates(),
            forall|k: Seq<char>| #[trigger]
                self@.contains_key(k) ==> 0 <= self.row_of(k) < self.keys().len()
                    && self.keys()[self.row_of(k)] == k,
            forall|i: int|
                0 <= i < self.keys().len() ==> self@.contains_key(#[trigger] self.keys()[i])
                    && self.row_of(self.keys()[i]) == i,
    {
        assert(self.rows@.len() == self.rows.len());
        assert forall|i: int, j: int|
            0 <= i < self.keys().len() && 0 <= j < self.keys().len() && i
                != j implies self.keys()[i] != self.keys()[j] by {
            assert(self.slots@[self.rows@[i].0@] == i);
            assert(self.slots@[self.rows@[j].0@] == j);
        }
        assert forall|i: int| 0 <= i < self.keys().len() implies self@.contains_key(
            #[trigger] self.keys()[i],
        ) && self.row_of(self.keys()[i]) == i by {
            assert(self.slots@.contains_key(self.rows@[i].0@));
        }
    }

    /// The domain of the view is finite, and its size is the number of rows.
    pub proof fn lemma_len(&self)
        requires
            self.wf(),
        ensures
            self@.dom().finite(),
            self@.len() == self.keys().len(),
            self@.dom() == self.keys().to_set(),
    {
        self.lemma_rows();
        let keys = self.keys();
        assert(self@.dom() =~= keys.to_set()) by {
            assert forall|k: Seq<char>| self@.dom().contains(k) implies keys.to_set().contains(
                k,
            ) by {
                assert(keys[self.row_of(k)] == k);
            }
        }
        keys.unique_seq_to_set();
        vstd::seq_lib::seq_to_set_is_finite(keys);
    }

    /// An empty table.
    pub fn new() -> (t: Self)
        ensures
            t.wf(),
            t@ == Map::<Seq<char>, V>::empty(),
            t.keys() == Seq::<Seq<char>>::empty(),
    {
        let t = Table { slots: StringHashMap::new(), rows: Vec::new() };
        assert(t@ =~= Map::<Seq<char>, V>::empty());
        assert(t.keys() =~= Seq::<Seq<char>>::empty());
        t
    }

    /// The number of entries.
    pub fn len(&self) -> (n: usize)
        requires
            self.wf(),
        ensures
            n == self@.len(),
            n == self.keys().len(),
    {
        proof {
            self.lemma_len();
        }
        self.rows.len()
    }

    /// Whether the table holds no entry.
    pub fn is_empty(&self) -> (b: bool)
        requires
            self.wf(),
        ensures
            b == (self@.len() == 0),
            b == (self@ == Map::<Seq<char>, V>::empty()),
    {
        proof {
            self.lemma_len();
            if self.rows@.len() == 0 {
                assert(self@ =~= Map::<Seq<char>, V>::empty()) by {
                    assert forall|k: Seq<char>| !self@.contains_key(k) by {
                        if self.slots@.contains_key(k) {
                            assert((self.slots@[k] as int) < self.rows@.len());
                        }
                    }
                }
            } else {
                assert(self@.contains_key(self.keys()[0]));
            }
        }
        self.rows.len() == 0
    }

    /// Whether the table holds `key`.
    pub fn contains_key(&self, key: &str) -> (b: bool)
        requires
            self.wf(),
        ensures
            b == self@.contains_key(key@),
    {
        self.slots.contains_key(key)
    }

    /// The value stored under `key`, if there is one.
    pub fn get(&self, key: &str) -> (r: Option<&V>)
        requires
            self.wf(),
        ensures
            match r {
                Some(v) => self@.contains_key(key@) && *v == self@[key@],
                None => !self@.contains_key(key@),
            },
    {
        match self.slots.get(key) {
            Some(i) => Some(&self.rows[*i].1),
            None => None,
        }
    }

    /// Stores `value` under `key`. A key that was already there keeps its
    /// row and gets the new value; a new key gets a new last row.
    pub fn insert(&mut self, key: String, value: V)
        requires
            old(self).wf(),
        ensures
            final(self).wf(),
            final(self)@ == old(self)@.insert(key@, value),
            final(self).keys() == if old(self)@.contains_key(key@) {
                old(self).keys()
            } else {
                old(self).keys().push(key@)
            },
    {
        let ghost before = *self;
        let found: Option<usize> = match self.slots.get(key.as_str()) {
            Some(i) => Some(*i),
            None => None,
        };
        match found {
            Some(i) => {
                self.rows[i] = (key, value);
                proof {
                    assert(self.keys() =~= before.keys());
                    assert(self@ =~= before@.insert(key@, value));
                }
            },
            None => {
                let i = self.rows.len();
                self.slots.insert(key.clone(), i);
                self.rows.push((key, value));
                proof {
                    assert(self.keys() =~= before.keys().push(key@));
                    assert(self@ =~= before@.insert(key@, value));
                }
            },
        }
    }

    /// The key in row `i`.
    pub fn key_at(&self, i: usize) -> (k: &String)
        requires
            self.wf(),
            i < self.keys().len(),
        ensures
            k@ == self.keys()[i as int],
    {
        &self.rows[i].0
    }

    /// The value in row `i`.
    pub fn value_at(&self, i: usize) -> (v: &V)
        requires
            self.wf(),
            i < self.keys().len(),
        ensures
            self@.contains_key(self.keys()[i as int]),
            *v == self@[self.keys()[i as int]],
    {
        proof {
            self.lemma_rows();
        }
        &self.rows[i].1
    }
}

impl<V: Copy> Clone for Table<V> {
    /// A table with the same entries in the same rows.
    fn clone(&self) -> (t: Self)
        ensures
            self.wf() ==> t.wf() && t@ == self@ && t.keys() == self.keys(),
    {
        let mut t = Table { slots: StringHashMap::new(), rows: Vec::new() };
        let n = self.rows.len();
        let mut i: usize = 0;
        while i < n
            invariant
                n == self.rows@.len(),
                i <= n,
                self.wf() ==> t.wf() && t.rows@ =~= self.rows@.subrange(0, i as int) && forall|
                    k: Seq<char>,
                | #[trigger]
                    t.slots@.contains_key(k) <==> self.slots@.contains_key(k) && self.slots@[k] < i,
            decreases n - i,
        {
            let key = self.rows[i].0.clone();
            let value = self.rows[i].1;
            proof {
                if self.wf() {
                    assert(self.slots@[self.rows@[i as int].0@] == i);
                }
            }
            t.slots.insert(key.clone(), i);
            t.rows.push((key, value));
            i = i + 1;
        }
        proof {
            if self.wf() {
                assert(t.rows@ =~= self.rows@);
                assert(t.keys() =~= self.keys());
                assert(t@ =~= self@);
            }
        }
        t
    }
}

} // verus!
