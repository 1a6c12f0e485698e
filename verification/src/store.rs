use crate::assoc::{
    last_for_key, lemma_absent_key, lemma_last_pair_counts, lemma_replace_last_pair, pairs_map,
};
use crate::hashing::copy_bytes;
use vstd::prelude::*;

verus! {

/// A map from text keys to byte values: what the ledger keeps in its
/// key-value store.
#[derive(Debug)]
pub struct Store {
    entries: Vec<(String, Vec<u8>)>,
}

/// The keys and values of a list of entries.
pub open spec fn entry_pairs(entries: Seq<(String, Vec<u8>)>) -> Seq<(Seq<char>, Seq<u8>)> {
    Seq::new(entries.len(), |i: int| (entries[i].0@, entries[i].1@))
}

impl View for Store {
    type V = Map<Seq<char>, Seq<u8>>;

    closed spec fn view(&self) -> Map<Seq<char>, Seq<u8>> {
        pairs_map(entry_pairs(self.entries@))
    }
}

impl Store {
    /// How many entries the store keeps.
    pub closed spec fn count(&self) -> nat {
        self.entries@.len()
    }

    /// A store without entries.
    pub fn new() -> (store: Store)
        ensures
            store@ == Map::<Seq<char>, Seq<u8>>::empty(),
            store.count() == 0,
    {
        let store = Store { entries: Vec::new() };
        assert(entry_pairs(store.entries@) =~= Seq::<(Seq<char>, Seq<u8>)>::empty());
        store
    }

    /// How many entries the store keeps.
    pub fn len(&self) -> (n: usize)
        ensures
            n == self.count(),
    {
        self.entries.len()
    }

    /// Where the last entry for `key` stands.
    fn position(&self, key: &String) -> (found: Option<usize>)
        ensures
            match found {
                Some(i) => last_for_key(entry_pairs(self.entries@), i as int)
                    && self.entries@[i as int].0@ == key@,
                None => !self@.contains_key(key@),
            },
    {
        let ghost pairs = entry_pairs(self.entries@);
        let mut i: usize = self.entries.len();
        while i > 0
            invariant
                i <= self.entries.len(),
                pairs == entry_pairs(self.entries@),
                forall|j: int| i <= j < pairs.len() ==> (#[trigger] pairs[j]).0 != key@,
            decreases i,
        {
            i -= 1;
            if self.entries[i].0 == *key {
                return Some(i);
            }
        }
        proof {
            lemma_absent_key(pairs, key@);
        }
        None
    }

    /// Whether the store has an entry for `key`.
    pub fn contains_key(&self, key: &String) -> (held: bool)
        ensures
            held == self@.contains_key(key@),
    {
        match self.position(key) {
            Some(i) => {
                proof {
                    lemma_last_pair_counts(entry_pairs(self.entries@), i as int);
                }
                true
            },
            None => false,
        }
    }

    /// The value that the store has for `key`.
    pub fn get(&self, key: &String) -> (value: Option<Vec<u8>>)
        ensures
            match value {
                Some(v) => self@.contains_key(key@) && v@ == self@[key@],
                None => !self@.contains_key(key@),
            },
    {
        match self.position(key) {
            Some(i) => {
                proof {
                    lemma_last_pair_counts(entry_pairs(self.entries@), i as int);
                }
                Some(copy_bytes(self.entries[i].1.as_slice()))
            },
            None => None,
        }
    }

    /// Sets the value for `key`, in the place of the one that the store
    /// had for it, if any.
    pub fn insert(&mut self, key: String, value: Vec<u8>)
        ensures
            final(self)@ == old(self)@.insert(key@, value@),
            final(self).count() == old(self).count() + if old(self)@.contains_key(key@) {
                0nat
            } else {
                1nat
            },
    {
        let ghost before = entry_pairs(self.entries@);
        match self.position(&key) {
            Some(i) => {
                proof {
                    lemma_last_pair_counts(before, i as int);
                    lemma_replace_last_pair(before, i as int, value@);
                }
                self.entries.set(i, (key, value));
                assert(entry_pairs(self.entries@) =~= before.update(
                    i as int,
                    (before[i as int].0, value@),
                ));
            },
            None => {
                self.entries.push((key, value));
                assert(entry_pairs(self.entries@).drop_last() =~= before);
            },
        }
    }
}

} // verus!
