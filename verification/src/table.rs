//! A small table keyed by strings.
//!
//! The table keeps its entries in a vector, in the order in which the keys
//! first arrived, and never holds a key twice. Contracts speak of it either
//! as a `Map` (its view) or as the two sequences `keys()` and `values()`.

use vstd::prelude::*;

verus! {

/// A table from strings to values of type `T`.
pub struct Table<T> {
    entries: Vec<(String, T)>,
}

impl<T> View for Table<T> {
    type V = Map<Seq<char>, T>;

    open spec fn view(&self) -> Map<Seq<char>, T> {
        Map::new(|k: Seq<char>| self.has(k), |k: Seq<char>| self.at(k))
    }
}

impl<T> Table<T> {
    #[verifier::type_invariant]
    spec fn distinct(self) -> bool {
        self.keys().no_duplicates()
    }

    /// The keys, oldest first.
    pub closed spec fn keys(self) -> Seq<Seq<char>> {
        Seq::new(self.entries@.len(), |i: int| self.entries@[i].0@)
    }

    /// The values, each at the index of its key.
    pub closed spec fn values(self) -> Seq<T> {
        Seq::new(self.entries@.len(), |i: int| self.entries@[i].1)
    }

    /// Whether `key` is in the table.
    pub open spec fn has(self, key: Seq<char>) -> bool {
        self.keys().contains(key)
    }

    /// The value stored under `key`; meaningful only where `has(key)`.
    pub open spec fn at(self, key: Seq<char>) -> T {
        self.values()[self.keys().index_of(key)]
    }

    /// The two sequences have one length, and `keys()` repeats nothing.
    pub open spec fn shaped(self) -> bool {
        &&& self.keys().len() == self.values().len()
        &&& self.keys().no_duplicates()
    }

    /// An empty table.
    pub fn new() -> (t: Self)
        ensures
            t.keys() == Seq::<Seq<char>>::empty(),
            t.values() == Seq::<T>::empty(),
            t@ == Map::<Seq<char>, T>::empty(),
            t.shaped(),
    {
        let t = Table { entries: Vec::new() };
        assert(t.keys() =~= Seq::<Seq<char>>::empty());
        assert(t.values() =~= Seq::<T>::empty());
        assert(t@ =~= Map::<Seq<char>, T>::empty());
        t
    }

    /// Makes the shape of the table known to the caller.
    pub fn shape(&self)
        ensures
            self.shaped(),
    {
        proof {
            use_type_invariant(self);
        }
    }

    /// The number of entries.
    pub fn len(&self) -> (n: usize)
        ensures
            n == self.keys().len(),
            n == self.values().len(),
    {
        self.entries.len()
    }

    /// Whether the table holds nothing.
    pub fn is_empty(&self) -> (b: bool)
        ensures
            b == (self.keys().len() == 0),
            b == (self@ == Map::<Seq<char>, T>::empty()),
    {
        let b = self.entries.len() == 0;
        proof {
            if b {
                assert(self@ =~= Map::<Seq<char>, T>::empty());
            } else {
                assert(self.keys()[0] == self.entries@[0].0@);
                assert(self.has(self.keys()[0]));
                assert(self@.dom().contains(self.keys()[0]));
            }
        }
        b
    }

    /// The index at which `key` is stored, if it is stored.
    pub fn position(&self, key: &String) -> (r: Option<usize>)
        ensures
            match r {
                Some(i) => i < self.keys().len() && self.keys()[i as int] == key@
                    && self.keys().index_of(key@) == i && self.has(key@),
                None => !self.has(key@),
            },
    {
        proof {
            use_type_invariant(self);
        }
        let mut i: usize = 0;
        while i < self.entries.len()
            invariant
                i <= self.entries@.len(),
                self.keys().no_duplicates(),
                forall|j: int| 0 <= j < i ==> self.keys()[j] != key@,
            decreases self.entries@.len() - i,
        {
            if self.entries[i].0 == *key {
                assert(self.keys()[i as int] == key@);
                assert(self.has(key@));
                return Some(i);
            }
            i = i + 1;
        }
        None
    }

    /// Whether `key` is in the table.
    pub fn contains_key(&self, key: &String) -> (b: bool)
        ensures
            b == self.has(key@),
            b == self@.contains_key(key@),
    {
        self.position(key).is_some()
    }

    /// The value stored under `key`.
    pub fn get(&self, key: &String) -> (r: Option<&T>)
        ensures
            match r {
                Some(v) => self.has(key@) && *v == self.at(key@) && self@.contains_key(key@)
                    && *v == self@[key@],
                None => !self.has(key@) && !self@.contains_key(key@),
            },
    {
        match self.position(key) {
            Some(i) => Some(&self.entries[i].1),
            None => None,
        }
    }

    /// The key at index `i`.
    pub fn key_at(&self, i: usize) -> (k: &String)
        requires
            i < self.keys().len(),
        ensures
            k@ == self.keys()[i as int],
    {
        &self.entries[i].0
    }

    /// The value at index `i`.
    pub fn value_at(&self, i: usize) -> (v: &T)
        requires
            i < self.values().len(),
        ensures
            *v == self.values()[i as int],
    {
        &self.entries[i].1
    }

    /// Stores `value` under `key`. A key that is already there keeps its
    /// place and gets the new value; a new key goes to the end.
    pub fn insert(&mut self, key: String, value: T)
        ensures
            final(self)@ == old(self)@.insert(key@, value),
            final(self).shaped(),
            old(self).has(key@) ==> final(self).keys() == old(self).keys() && final(self).values()
                == old(self).values().update(old(self).keys().index_of(key@), value),
            !old(self).has(key@) ==> final(self).keys() == old(self).keys().push(key@),
            !old(self).has(key@) ==> final(self).values() == old(self).values().push(value),
    {
        proof {
            use_type_invariant(&*self);
        }
        let ghost before = *self;
        let found = self.position(&key);
        let mut entries: Vec<(String, T)> = Vec::new();
        core::mem::swap(&mut self.entries, &mut entries);
        let ghost k = key@;
        match found {
            Some(i) => {
                entries.set(i, (key, value));
            },
            None => {
                entries.push((key, value));
            },
        }
        let ghost after = Table { entries };
        proof {
            match found {
                Some(i) => {
                    assert(after.keys() =~= before.keys());
                    assert(after.values() =~= before.values().update(i as int, value));
                },
                None => {
                    assert(after.keys() =~= before.keys().push(k));
                    assert(after.values() =~= before.values().push(value));
                    assert(after.keys().index_of(k) == before.keys().len()) by {
                        assert(after.keys()[before.keys().len() as int] == k);
                    }
                },
            }
            lemma_insert_view(before, after, k, value);
        }
        self.entries = entries;
    }

    /// Takes `key` and its value out of the table.
    pub fn remove(&mut self, key: &String) -> (r: Option<T>)
        ensures
            final(self)@ == old(self)@.remove(key@),
            final(self).shaped(),
            r == (if old(self).has(key@) {
                Some(old(self).at(key@))
            } else {
                None
            }),
            old(self).has(key@) ==> final(self).keys() == old(self).keys().remove(
                old(self).keys().index_of(key@),
            ) && final(self).values() == old(self).values().remove(
                old(self).keys().index_of(key@),
            ),
            !old(self).has(key@) ==> final(self).keys() == old(self).keys(),
            !old(self).has(key@) ==> final(self).values() == old(self).values(),
    {
        proof {
            use_type_invariant(&*self);
        }
        let ghost before = *self;
        match self.position(key) {
            None => {
                assert(self@ =~= self@.remove(key@));
                None
            },
            Some(i) => {
                let mut entries: Vec<(String, T)> = Vec::new();
                core::mem::swap(&mut self.entries, &mut entries);
                let gone = entries.remove(i);
                let ghost after = Table { entries };
                proof {
                    assert(after.keys() =~= before.keys().remove(i as int));
                    assert(after.values() =~= before.values().remove(i as int));
                    lemma_remove_view(before, after, i as int);
                }
                self.entries = entries;
                Some(gone.1)
            },
        }
    }

    /// Takes the newest entry out of the table.
    pub fn pop(&mut self) -> (r: Option<(String, T)>)
        ensures
            final(self).shaped(),
            old(self).keys().len() == 0 ==> r is None && final(self).keys() == old(self).keys()
                && final(self).values() == old(self).values(),
            old(self).keys().len() > 0 ==> final(self).keys() == old(self).keys().drop_last()
                && final(self).values() == old(self).values().drop_last(),
            old(self).keys().len() > 0 ==> (r matches Some(e) && e.0@ == old(self).keys().last()
                && e.1 == old(self).values().last()),
    {
        proof {
            use_type_invariant(&*self);
        }
        let ghost before = *self;
        let mut entries: Vec<(String, T)> = Vec::new();
        core::mem::swap(&mut self.entries, &mut entries);
        let r = entries.pop();
        let ghost after = Table { entries };
        proof {
            if before.keys().len() > 0 {
                assert(after.keys() =~= before.keys().drop_last());
                assert(after.values() =~= before.values().drop_last());
            } else {
                assert(after.keys() =~= before.keys());
                assert(after.values() =~= before.values());
            }
        }
        self.entries = entries;
        r
    }
}

/// Writing a value under a key, seen through the view.
proof fn lemma_insert_view<T>(before: Table<T>, after: Table<T>, key: Seq<char>, value: T)
    requires
        before.shaped(),
        before.has(key) ==> after.keys() == before.keys() && after.values()
            == before.values().update(before.keys().index_of(key), value),
        !before.has(key) ==> after.keys() == before.keys().push(key) && after.values()
            == before.values().push(value),
    ensures
        after.shaped(),
        after@ == before@.insert(key, value),
{
    let bk = before.keys();
    let ak = after.keys();
    if before.has(key) {
        let i = bk.index_of(key);
        assert forall|k: Seq<char>| #[trigger] after.has(k) implies after.at(k) == (if k == key {
            value
        } else {
            before.at(k)
        }) by {
            let j = ak.index_of(k);
            assert(bk[j] == k);
        }
    } else {
        assert forall|a: int, b: int| 0 <= a < ak.len() && 0 <= b < ak.len() && a != b implies ak[a]
            != ak[b] by {
            if a < bk.len() && b < bk.len() {
            } else if a < bk.len() {
                assert(bk[a] != key);
            } else {
                assert(bk[b] != key);
            }
        }
        assert forall|k: Seq<char>| #[trigger] after.has(k) <==> (k == key || before.has(k)) by {
            if after.has(k) {
                let j = ak.index_of(k);
                if j < bk.len() {
                    assert(bk[j] == k);
                }
            }
            if before.has(k) {
                let j = bk.index_of(k);
                assert(ak[j] == k);
            }
            if k == key {
                assert(ak[bk.len() as int] == k);
            }
        }
        assert forall|k: Seq<char>| #[trigger] after.has(k) implies after.at(k) == (if k == key {
            value
        } else {
            before.at(k)
        }) by {
            let j = ak.index_of(k);
            if k == key {
                assert(ak[bk.len() as int] == k);
            } else {
                assert(bk[j] == k);
                let j2 = bk.index_of(k);
                assert(ak[j2] == k);
            }
        }
    }
    assert(after@ =~= before@.insert(key, value));
}

/// Taking the entry at index `i` out, seen through the view.
proof fn lemma_remove_view<T>(before: Table<T>, after: Table<T>, i: int)
    requires
        before.shaped(),
        0 <= i < before.keys().len(),
        after.keys() == before.keys().remove(i),
        after.values() == before.values().remove(i),
    ensures
        after.shaped(),
        after@ == before@.remove(before.keys()[i]),
        before.at(before.keys()[i]) == before.values()[i],
        before.keys().index_of(before.keys()[i]) == i,
{
    let bk = before.keys();
    let ak = after.keys();
    let key = bk[i];
    assert forall|a: int| 0 <= a < ak.len() implies #[trigger] ak[a] == bk[if a < i {
        a
    } else {
        a + 1
    }] by {}
    assert forall|a: int| 0 <= a < ak.len() implies #[trigger] after.values()[a]
        == before.values()[if a < i {
        a
    } else {
        a + 1
    }] by {}
    assert forall|k: Seq<char>| #[trigger] after.has(k) <==> (k != key && before.has(k)) by {
        if after.has(k) {
            let j = ak.index_of(k);
            let j2 = if j < i {
                j
            } else {
                j + 1
            };
            assert(bk[j2] == k);
        }
        if k != key && before.has(k) {
            let j = bk.index_of(k);
            let j2 = if j < i {
                j
            } else {
                j - 1
            };
            assert(ak[j2] == k);
        }
    }
    assert forall|k: Seq<char>| #[trigger] after.has(k) implies after.at(k) == before.at(k) by {
        let j = ak.index_of(k);
        let j2 = if j < i {
            j
        } else {
            j + 1
        };
        assert(bk[j2] == k);
        assert(bk.index_of(k) == j2);
    }
    assert(after@ =~= before@.remove(key));
}

} // verus!
