//! An order-preserving map with a fixed capacity bound.

use vstd::prelude::*;

use crate::kvec::KVec;

verus! {

/// Map-like struct over a bounded vector of key-value pairs.
///
/// The map keeps its entries in insertion order, which is why it offers
/// index-based reads such as [`KMap::get_by_idx`]. Lookup and insertion by
/// key are left to a wrapping type, which decides what key equality means;
/// the backing vector is public for that purpose.
pub struct KMap<K, V, const N: usize> {
    /// The backing vector of the map.
    pub vec: KVec<(K, V), N>,
}

impl<K, V, const N: usize> View for KMap<K, V, N> {
    type V = Seq<(K, V)>;

    open spec fn view(&self) -> Seq<(K, V)> {
        self.vec@
    }
}

impl<K, V, const N: usize> KMap<K, V, N> {
    /// Returns the number of entries in the map, also referred to as its 'length'.
    pub fn len(&self) -> (l: usize)
        ensures
            l == self@.len(),
    {
        self.vec.len()
    }

    /// Returns true if the map contains no entries.
    pub fn is_empty(&self) -> (b: bool)
        ensures
            b == (self@.len() == 0),
    {
        self.vec.is_empty()
    }

    /// Returns the value at the index, or `None` if the index is out of range.
    pub fn get_by_idx(&self, index: usize) -> (r: Option<&V>)
        ensures
            match r {
                Some(v) => index < self@.len() && *v == self@[index as int].1,
                None => index >= self@.len(),
            },
    {
        match self.vec.get(index) {
            Some(entry) => Some(&entry.1),
            None => None,
        }
    }

    /// Returns the value at the index, with no bounds check at run time.
    pub fn get_by_idx_unchecked(&self, index: usize) -> (r: &V)
        requires
            index < self@.len(),
        ensures
            *r == self@[index as int].1,
    {
        &self.vec.get_unchecked(index).1
    }
}

} // verus!
