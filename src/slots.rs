//! The best candidate found so far for each word, keyed by the word's
//! ordinal, in a `hashbrown` map.

use vstd::prelude::*;

verus! {

/// A map from word ordinal to a candidate, as a byte offset and a priority.
#[verifier::external_body]
pub struct WordSlots {
    map: hashbrown::HashMap<usize, (usize, usize)>,
}

/// The entries of the map.
pub uninterp spec fn slot_map(m: WordSlots) -> Map<usize, (usize, usize)>;

impl WordSlots {
    /// Relies on hashbrown's `HashMap::with_capacity`: a new map is empty.
    #[verifier::external_body]
    pub(crate) fn with_capacity(n: usize) -> (r: WordSlots)
        ensures
            slot_map(r).dom() =~= Set::<usize>::empty(),
    {
        WordSlots { map: hashbrown::HashMap::with_capacity(n) }
    }

    /// Relies on hashbrown's `HashMap::get`: the value under `k`, if any.
    #[verifier::external_body]
    pub(crate) fn get(&self, k: usize) -> (r: Option<(usize, usize)>)
        ensures
            r == (if slot_map(*self).contains_key(k) {
                Some(slot_map(*self)[k])
            } else {
                None
            }),
    {
        self.map.get(&k).copied()
    }

    /// Relies on hashbrown's `HashMap::insert`: `k` now maps to `v`, and
    /// every other key keeps its value.
    #[verifier::external_body]
    pub(crate) fn insert(&mut self, k: usize, v: (usize, usize))
        ensures
            slot_map(*final(self)) == slot_map(*old(self)).insert(k, v),
    {
        self.map.insert(k, v);
    }

    /// Relies on hashbrown's `HashMap::into_iter`: every entry once, in an
    /// unspecified order.
    #[verifier::external_body]
    pub(crate) fn into_entries(self) -> (r: Vec<(usize, (usize, usize))>)
        ensures
            forall|i: int|
                0 <= i < r@.len() ==> slot_map(self).contains_key(#[trigger] r@[i].0)
                    && slot_map(self)[r@[i].0] == r@[i].1,
            forall|i: int, j: int| 0 <= i < j < r@.len() ==> r@[i].0 != r@[j].0,
            forall|k: usize|
                slot_map(self).contains_key(k) ==> exists|i: int|
                    0 <= i < r@.len() && #[trigger] r@[i].0 == k,
    {
        self.map.into_iter().collect()
    }
}

} // verus!
