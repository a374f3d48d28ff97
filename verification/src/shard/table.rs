use vstd::prelude::*;

use crate::common::types::{bytes_equal, Key};
use crate::shard::entry::{Entry, Stored};

verus! {

/// The entries of a shard, each under its own key.
pub struct EntryTable {
    entries: Vec<(Key, Entry)>,
}

impl EntryTable {
    /// The keys, in the table's order.
    pub closed spec fn keys(self) -> Seq<Seq<u8>> {
        Seq::new(self.entries@.len(), |i: int| self.entries@[i].0@)
    }

    /// The entries, in the table's order.
    pub closed spec fn ordered(self) -> Seq<(Seq<u8>, Stored)> {
        Seq::new(self.entries@.len(), |i: int| (self.entries@[i].0@, self.entries@[i].1.view()))
    }

    /// No key occurs twice.
    pub closed spec fn wf(self) -> bool {
        self.keys().no_duplicates()
    }

    /// The entries by key.
    pub closed spec fn view(self) -> Map<Seq<u8>, Stored> {
        Map::new(
            |k: Seq<u8>| self.keys().contains(k),
            |k: Seq<u8>| self.entries@[self.keys().index_of(k)].1.view(),
        )
    }

    proof fn lemma_index(self, j: int)
        requires
            self.wf(),
            0 <= j < self.entries@.len(),
        ensures
            self.keys().contains(self.keys()[j]),
            self.keys().index_of(self.keys()[j]) == j,
            self@.contains_key(self.keys()[j]),
            self@[self.keys()[j]] == self.entries@[j].1.view(),
    {
        let k = self.keys()[j];
        assert(self.keys().contains(k));
        let i = self.keys().index_of(k);
        assert(self.keys()[i] == k);
    }

    /// The ordered entries and the entries by key agree.
    pub proof fn lemma_ordered(self)
        requires
            self.wf(),
        ensures
            self@.dom().finite(),
            self.ordered().len() == self@.dom().len(),
            forall|i: int| 0 <= i < self.ordered().len() ==> {
                &&& self@.contains_key(#[trigger] self.ordered()[i].0)
                &&& self@[self.ordered()[i].0] == self.ordered()[i].1
            },
            forall|k: Seq<u8>| #[trigger] self@.contains_key(k) ==> exists|i: int| 0 <= i < self.ordered().len() && self.ordered()[i].0 == k,
    {
        self.lemma_len();
        assert forall|i: int| 0 <= i < self.ordered().len() implies {
            &&& self@.contains_key(#[trigger] self.ordered()[i].0)
            &&& self@[self.ordered()[i].0] == self.ordered()[i].1
        } by {
            self.lemma_index(i);
        }
        assert forall|k: Seq<u8>| #[trigger] self@.contains_key(k) implies exists|i: int| 0 <= i < self.ordered().len() && self.ordered()[i].0 == k by {
            let i = self.keys().index_of(k);
            assert(self.ordered()[i].0 == k);
        }
    }

    proof fn lemma_len(self)
        requires
            self.wf(),
        ensures
            self@.dom().len() == self.entries@.len(),
            self@.dom().finite(),
    {
        assert(self@.dom() =~= self.keys().to_set());
        self.keys().unique_seq_to_set();
    }

    pub fn new() -> (r: Self)
        ensures
            r.wf(),
            r@ == Map::<Seq<u8>, Stored>::empty(),
    {
        let r = EntryTable { entries: Vec::new() };
        assert(r.keys() =~= Seq::<Seq<u8>>::empty());
        assert(r@ =~= Map::<Seq<u8>, Stored>::empty());
        r
    }

    pub fn len(&self) -> (r: usize)
        requires
            self.wf(),
        ensures
            r == self@.dom().len(),
            self@.dom().finite(),
    {
        proof {
            self.lemma_len();
        }
        self.entries.len()
    }

    /// Where `key` is in the table's order.
    pub fn find(&self, key: &[u8]) -> (r: Option<usize>)
        requires
            self.wf(),
        ensures
            match r {
                Some(i) => i < self.ordered().len() && self.ordered()[i as int].0 == key@,
                None => !self@.contains_key(key@),
            },
    {
        let mut i: usize = 0;
        while i < self.entries.len()
            invariant
                i <= self.entries@.len(),
                forall|j: int| 0 <= j < i ==> self.keys()[j] != key@,
            decreases self.entries.len() - i,
        {
            if bytes_equal(self.entries[i].0.as_slice(), key) {
                return Some(i);
            }
            i = i + 1;
        }
        proof {
            if self.keys().contains(key@) {
                let j = self.keys().index_of(key@);
                assert(self.keys()[j] == key@);
            }
        }
        None
    }

    /// The entry under `key`, if any.
    pub fn get(&self, key: &[u8]) -> (r: Option<&Entry>)
        requires
            self.wf(),
        ensures
            match r {
                Some(e) => self@.contains_key(key@) && e.view() == self@[key@],
                None => !self@.contains_key(key@),
            },
    {
        match self.find(key) {
            Some(i) => {
                proof {
                    self.lemma_index(i as int);
                }
                Some(&self.entries[i].1)
            },
            None => None,
        }
    }

    /// The entry at `i` in the table's order.
    pub fn entry_at(&self, i: usize) -> (r: (&Key, &Entry))
        requires
            i < self.ordered().len(),
        ensures
            r.0@ == self.ordered()[i as int].0,
            r.1.view() == self.ordered()[i as int].1,
    {
        let p = &self.entries[i];
        (&p.0, &p.1)
    }

    /// Puts `entry` under `key`, replacing what was there.
    pub fn insert(&mut self, key: Key, entry: Entry)
        requires
            old(self).wf(),
        ensures
            final(self).wf(),
            final(self)@ == old(self)@.insert(key@, entry.view()),
    {
        let ghost k = key@;
        let ghost v = entry.view();
        match self.find(key.as_slice()) {
            Some(i) => {
                proof {
                    old(self).lemma_index(i as int);
                }
                self.entries.set(i, (key, entry));
                proof {
                    assert(self.keys() =~= old(self).keys());
                    assert forall|k2: Seq<u8>| #[trigger] self@.contains_key(k2) implies self@[k2] == old(self)@.insert(k, v)[k2] by {
                        let j = self.keys().index_of(k2);
                        assert(self.keys()[j] == k2);
                        if k2 != k {
                            assert(j != i);
                            old(self).lemma_index(j);
                        }
                        self.lemma_index(j);
                    }
                    assert(self@ =~= old(self)@.insert(k, v));
                }
            },
            None => {
                self.entries.push((key, entry));
                proof {
                    let n = old(self).entries@.len() as int;
                    assert(self.keys() =~= old(self).keys().push(k));
                    assert(!old(self).keys().contains(k));
                    assert(self.keys().no_duplicates()) by {
                        assert forall|a: int, b: int| 0 <= a < b < self.keys().len() implies self.keys()[a] != self.keys()[b] by {
                            if b == n {
                                assert(old(self).keys()[a] == self.keys()[a]);
                            }
                        }
                    }
                    assert forall|k2: Seq<u8>| #[trigger] self@.contains_key(k2) implies self@[k2] == old(self)@.insert(k, v)[k2] by {
                        let j = self.keys().index_of(k2);
                        assert(self.keys()[j] == k2);
                        self.lemma_index(j);
                        if k2 != k {
                            assert(j != n);
                            old(self).lemma_index(j);
                        }
                    }
                    assert forall|k2: Seq<u8>| #[trigger] old(self)@.insert(k, v).contains_key(k2) implies self@.contains_key(k2) by {
                        if k2 == k {
                            assert(self.keys()[n] == k);
                        } else {
                            let j = old(self).keys().index_of(k2);
                            assert(self.keys()[j] == k2);
                        }
                    }
                    assert(self@ =~= old(self)@.insert(k, v));
                }
            },
        }
    }

    /// Sets when the entry under `key` expires, if there is one.
    pub fn set_expiry(&mut self, key: &[u8], expiry: Option<u128>) -> (r: bool)
        requires
            old(self).wf(),
        ensures
            final(self).wf(),
            r == old(self)@.contains_key(key@),
            final(self)@ == if r {
                old(self)@.insert(key@, Stored { value: old(self)@[key@].value, expiry })
            } else {
                old(self)@
            },
    {
        match self.find(key) {
            None => false,
            Some(i) => {
                proof {
                    old(self).lemma_index(i as int);
                }
                let (k, mut e) = self.entries.remove(i);
                e.expiry = expiry;
                self.entries.insert(i, (k, e));
                proof {
                    let kk = key@;
                    let v = Stored { value: old(self)@[kk].value, expiry };
                    assert(self.keys() =~= old(self).keys());
                    assert(self.entries@[i as int].1.view() == v);
                    assert forall|j: int| 0 <= j < self.entries@.len() && j != i implies self.entries@[j] == old(self).entries@[j] by {}
                    assert forall|k2: Seq<u8>| #[trigger] self@.contains_key(k2) implies self@[k2] == old(self)@.insert(kk, v)[k2] by {
                        let j = self.keys().index_of(k2);
                        assert(self.keys()[j] == k2);
                        self.lemma_index(j);
                        if k2 != kk {
                            assert(j != i);
                            old(self).lemma_index(j);
                        }
                    }
                    assert(self@ =~= old(self)@.insert(kk, v));
                }
                true
            },
        }
    }

    /// Takes out the entry under `key`, if any.
    pub fn remove(&mut self, key: &[u8]) -> (r: Option<Entry>)
        requires
            old(self).wf(),
        ensures
            final(self).wf(),
            final(self)@ == old(self)@.remove(key@),
            match r {
                Some(e) => old(self)@.contains_key(key@) && e.view() == old(self)@[key@],
                None => !old(self)@.contains_key(key@),
            },
    {
        let ghost k = key@;
        match self.find(key) {
            None => {
                assert(self@ =~= old(self)@.remove(k));
                None
            },
            Some(i) => {
                proof {
                    old(self).lemma_index(i as int);
                }
                let removed = self.entries.swap_remove(i);
                proof {
                    let n = old(self).entries@.len() as int;
                    let ok = old(self).keys();
                    assert forall|j: int| 0 <= j < self.keys().len() implies self.keys()[j] == (if j == i {
                        ok[n - 1]
                    } else {
                        ok[j]
                    }) by {}
                    assert(self.keys().no_duplicates()) by {
                        assert forall|a: int, b: int| 0 <= a < b < self.keys().len() implies self.keys()[a] != self.keys()[b] by {
                            if a == i {
                                assert(ok[n - 1] != ok[b]);
                            } else if b == i {
                                assert(ok[a] != ok[n - 1]);
                            }
                        }
                    }
                    assert forall|k2: Seq<u8>| #[trigger] self@.contains_key(k2) implies old(self)@.remove(k).contains_key(k2)
                        && self@[k2] == old(self)@.remove(k)[k2] by {
                        let j = self.keys().index_of(k2);
                        assert(self.keys()[j] == k2);
                        self.lemma_index(j);
                        let oj = if j == i { n - 1 } else { j };
                        assert(ok[oj] == k2);
                        assert(oj != i);
                        old(self).lemma_index(oj);
                    }
                    assert forall|k2: Seq<u8>| #[trigger] old(self)@.remove(k).contains_key(k2) implies self@.contains_key(k2) by {
                        let oj = ok.index_of(k2);
                        assert(ok[oj] == k2);
                        assert(oj != i);
                        let j = if oj == n - 1 { i as int } else { oj };
                        assert(self.keys()[j] == k2);
                    }
                    assert(self@ =~= old(self)@.remove(k));
                }
                Some(removed.1)
            },
        }
    }
}

} // verus!
