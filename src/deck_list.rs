//! A deck list: the copies asked for of each card, keyed by identifier.

use vstd::prelude::*;
use crate::identifier::{CollectionCardIdentifier, IdentKey};

verus! {

/// The count that `m` holds for `k`, if any.
pub open spec fn lookup(m: Map<IdentKey, usize>, k: IdentKey) -> Option<usize> {
    if m.dom().contains(k) {
        Some(m[k])
    } else {
        None
    }
}

/// Requested copy counts by card identifier. Identifiers that differ only in
/// the ASCII case of their text name one entry, and every count is positive.
///
/// The entries are kept in a vector searched with the case-blind equality.
/// A hashbrown map cannot be declared to Verus (its allocator bound names a
/// trait that hashbrown keeps private), and a hash table held opaquely would
/// need a hash that agrees with the case-blind equality, which nothing here
/// could check.
pub struct DeckList {
    entries: Vec<(CollectionCardIdentifier, usize)>,
}

impl DeckList {
    /// Entries are keyed uniquely and every count is positive.
    pub closed spec fn wf(&self) -> bool {
        &&& forall|i: int, j: int|
            0 <= i < j < self.entries@.len() ==> (#[trigger] self.entries@[i]).0.key() != (#[trigger] self.entries@[j]).0.key()
        &&& forall|i: int| 0 <= i < self.entries@.len() ==> (#[trigger] self.entries@[i]).1 >= 1
    }

    spec fn has_index(&self, k: IdentKey, i: int) -> bool {
        0 <= i < self.entries@.len() && self.entries@[i].0.key() == k
    }
}

impl View for DeckList {
    type V = Map<IdentKey, usize>;

    closed spec fn view(&self) -> Map<IdentKey, usize> {
        Map::new(
            |k: IdentKey| exists|i: int| self.has_index(k, i),
            |k: IdentKey| self.entries@[choose|i: int| self.has_index(k, i)].1,
        )
    }
}

impl DeckList {
    proof fn lemma_index(&self, k: IdentKey, i: int)
        requires
            self.wf(),
            self.has_index(k, i),
        ensures
            self@.dom().contains(k),
            self@[k] == self.entries@[i].1,
    {
        let j = choose|j: int| self.has_index(k, j);
        assert(j == i) by {
            if j < i {
                assert(self.entries@[j].0.key() != self.entries@[i].0.key());
            } else if i < j {
                assert(self.entries@[i].0.key() != self.entries@[j].0.key());
            }
        }
    }

    /// Every count that a well-formed deck list holds is at least one.
    pub proof fn lemma_counts_positive(&self, k: IdentKey)
        requires
            self.wf(),
            self@.dom().contains(k),
        ensures
            self@[k] >= 1,
    {
        let i = choose|i: int| self.has_index(k, i);
        self.lemma_index(k, i);
    }

    pub fn new() -> (r: DeckList)
        ensures
            r.wf(),
            r@ == Map::<IdentKey, usize>::empty(),
    {
        let r = DeckList { entries: Vec::new() };
        assert(r@ =~= Map::<IdentKey, usize>::empty());
        r
    }

    fn find(&self, ident: &CollectionCardIdentifier) -> (r: Option<usize>)
        requires
            self.wf(),
        ensures
            match r {
                Some(i) => self.has_index(ident.key(), i as int),
                None => forall|i: int| !self.has_index(ident.key(), i),
            },
    {
        let mut i: usize = 0;
        while i < self.entries.len()
            invariant
                i <= self.entries@.len(),
                forall|j: int| 0 <= j < i ==> !self.has_index(ident.key(), j),
            decreases self.entries@.len() - i,
        {
            if self.entries[i].0.same_as(ident) {
                return Some(i);
            }
            i = i + 1;
        }
        None
    }

    /// The count listed for `ident`, if any.
    pub fn get(&self, ident: &CollectionCardIdentifier) -> (r: Option<usize>)
        requires
            self.wf(),
        ensures
            r == lookup(self@, ident.key()),
            r matches Some(c) ==> c >= 1,
    {
        match self.find(ident) {
            Some(i) => {
                proof {
                    self.lemma_index(ident.key(), i as int);
                }
                Some(self.entries[i].1)
            },
            None => {
                assert(!self@.dom().contains(ident.key()));
                None
            },
        }
    }

    /// Sets the count of `ident` to `count`. An identifier equal to `ident`
    /// that is already listed keeps its spelling.
    pub fn insert(&mut self, ident: CollectionCardIdentifier, count: usize)
        requires
            old(self).wf(),
            count >= 1,
        ensures
            final(self).wf(),
            final(self)@ == old(self)@.insert(ident.key(), count),
    {
        let k = Ghost(ident.key());
        match self.find(&ident) {
            Some(i) => {
                let ghost before = *self;
                assert(before.wf());
                let name = self.entries[i].0.clone();
                self.entries.set(i, (name, count));
                proof {
                    assert(self.wf()) by {
                        assert forall|a: int, b: int| 0 <= a < b < self.entries@.len() implies
                            (#[trigger] self.entries@[a]).0.key() != (#[trigger] self.entries@[b]).0.key() by {
                            assert(before.entries@[a].0.key() != before.entries@[b].0.key());
                        }
                    }
                    assert forall|kk: IdentKey| #[trigger] self@.dom().contains(kk) <==> before@.dom().contains(kk) by {
                        if self@.dom().contains(kk) {
                            let j = choose|j: int| self.has_index(kk, j);
                            assert(before.has_index(kk, j));
                        }
                        if before@.dom().contains(kk) {
                            let j = choose|j: int| before.has_index(kk, j);
                            assert(self.has_index(kk, j));
                        }
                    }
                    assert forall|kk: IdentKey| #[trigger] self@.dom().contains(kk) implies self@[kk] == old(self)@.insert(k@, count)[kk] by {
                        let j = choose|j: int| self.has_index(kk, j);
                        assert(before.has_index(kk, j));
                        self.lemma_index(kk, j);
                        before.lemma_index(kk, j);
                    }
                    assert(before.has_index(k@, i as int));
                    before.lemma_index(k@, i as int);
                    assert(self@ =~= old(self)@.insert(k@, count));
                }
            },
            None => {
                let ghost before = *self;
                assert(before.wf());
                self.entries.push((ident, count));
                proof {
                    assert(self.wf()) by {
                        assert forall|a: int, b: int| 0 <= a < b < self.entries@.len() implies
                            (#[trigger] self.entries@[a]).0.key() != (#[trigger] self.entries@[b]).0.key() by {
                            if b == before.entries@.len() {
                                assert(!before.has_index(k@, a));
                            }
                        }
                    }
                    let n = before.entries@.len() as int;
                    assert(self.has_index(k@, n));
                    self.lemma_index(k@, n);
                    assert forall|kk: IdentKey| #[trigger] self@.dom().contains(kk) <==> old(self)@.insert(k@, count).dom().contains(kk) by {
                        if self@.dom().contains(kk) && kk != k@ {
                            let j = choose|j: int| self.has_index(kk, j);
                            assert(before.has_index(kk, j));
                        }
                        if before@.dom().contains(kk) {
                            let j = choose|j: int| before.has_index(kk, j);
                            assert(self.has_index(kk, j));
                        }
                    }
                    assert forall|kk: IdentKey| #[trigger] self@.dom().contains(kk) && kk != k@ implies self@[kk] == before@[kk] by {
                        let j = choose|j: int| self.has_index(kk, j);
                        assert(before.has_index(kk, j));
                        self.lemma_index(kk, j);
                        before.lemma_index(kk, j);
                    }
                    assert(self@ =~= old(self)@.insert(k@, count));
                }
            },
        }
    }

    /// Whether nothing is listed.
    pub fn is_empty(&self) -> (r: bool)
        requires
            self.wf(),
        ensures
            r == (self@ == Map::<IdentKey, usize>::empty()),
    {
        if self.entries.len() == 0 {
            assert(self@ =~= Map::<IdentKey, usize>::empty());
            true
        } else {
            assert(self.has_index(self.entries@[0].0.key(), 0));
            assert(self@.dom().contains(self.entries@[0].0.key()));
            false
        }
    }

    /// The listed identifiers, one for each entry.
    pub fn identifiers(&self) -> (r: Vec<CollectionCardIdentifier>)
        requires
            self.wf(),
        ensures
            forall|i: int| 0 <= i < r@.len() ==> self@.dom().contains(#[trigger] r@[i].key()),
            forall|k: IdentKey| self@.dom().contains(k) ==> exists|i: int| 0 <= i < r@.len() && r@[i].key() == k,
            forall|i: int, j: int| 0 <= i < j < r@.len() ==> (#[trigger] r@[i]).key() != (#[trigger] r@[j]).key(),
            (r@.len() == 0) == (self@ == Map::<IdentKey, usize>::empty()),
    {
        let mut r: Vec<CollectionCardIdentifier> = Vec::new();
        let mut i: usize = 0;
        while i < self.entries.len()
            invariant
                i <= self.entries@.len(),
                r@.len() == i,
                forall|j: int| 0 <= j < i ==> (#[trigger] r@[j]) == self.entries@[j].0,
            decreases self.entries@.len() - i,
        {
            r.push(self.entries[i].0.clone());
            i = i + 1;
        }
        proof {
            assert forall|j: int| 0 <= j < r@.len() implies self@.dom().contains(#[trigger] r@[j].key()) by {
                assert(self.has_index(r@[j].key(), j));
            }
            assert forall|k: IdentKey| self@.dom().contains(k) implies exists|j: int| 0 <= j < r@.len() && r@[j].key() == k by {
                let j = choose|j: int| self.has_index(k, j);
                assert(r@[j].key() == k);
            }
            if r@.len() != 0 {
                assert(self.has_index(self.entries@[0].0.key(), 0));
                assert(self@.dom().contains(self.entries@[0].0.key()));
            } else {
                assert(self@ =~= Map::<IdentKey, usize>::empty());
            }
        }
        r
    }
}

} // verus!
