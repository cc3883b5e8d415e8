//! The set of values a node has accepted.

use std::collections::HashSet;
use vstd::prelude::*;
use vstd::seq_lib::seq_to_set_is_finite;
use vstd::std_specs::hash::spec_hash_keys_iter;
use vstd::std_specs::iter::IteratorSpec;

verus! {

/// Whether `list` holds every value of `values`, each once, and nothing else.
pub open spec fn is_snapshot(list: Seq<u64>, values: Set<u64>) -> bool {
    &&& list.to_set() == values
    &&& list.no_duplicates()
}

/// The values a node has ever accepted. A value, once present, is never removed.
pub struct DedupStore {
    ids: HashSet<u64>,
}

impl View for DedupStore {
    type V = Set<u64>;

    closed spec fn view(&self) -> Set<u64> {
        self.ids@
    }
}

impl DedupStore {
    /// A store never holds more than finitely many values.
    pub proof fn lemma_finite(&self)
        ensures
            self@.finite(),
    {
        let keys = spec_hash_keys_iter(&self.ids).remaining().unref();
        assert(keys.to_set() == self.ids@);
        seq_to_set_is_finite(keys);
    }

    /// A store that holds no value.
    pub fn new() -> (store: Self)
        ensures
            store@ == Set::<u64>::empty(),
    {
        DedupStore { ids: HashSet::new() }
    }

    /// Records `v`. Returns `true` if `v` was absent, and `false`, changing nothing, if
    /// it was already present.
    pub fn insert(&mut self, v: u64) -> (fresh: bool)
        ensures
            fresh == !old(self)@.contains(v),
            final(self)@ == old(self)@.insert(v),
    {
        if !self.ids.contains(&v) {
            self.ids.insert(v);
            true
        } else {
            assert(self.ids@.insert(v) =~= self.ids@);
            false
        }
    }

    /// Whether `v` has been recorded.
    pub fn contains(&self, v: u64) -> (present: bool)
        ensures
            present == self@.contains(v),
    {
        self.ids.contains(&v)
    }

    /// The number of values recorded.
    pub fn len(&self) -> (n: usize)
        ensures
            n == self@.len(),
    {
        self.ids.len()
    }

    /// Every recorded value, each once, in no particular order.
    pub fn snapshot(&self) -> (values: Vec<u64>)
        ensures
            is_snapshot(values@, self@),
            values@.len() == self@.len(),
    {
        let ghost keys = spec_hash_keys_iter(&self.ids).remaining().unref();
        let mut values: Vec<u64> = Vec::new();
        for v in it: self.ids.iter()
            invariant
                it.seq().unref() == keys,
                values@ == keys.take(it.index()),
        {
            values.push(*v);
        }
        proof {
            assert(values@ == keys);
            assert(keys.no_duplicates());
            keys.unique_seq_to_set();
        }
        values
    }
}

} // verus!
