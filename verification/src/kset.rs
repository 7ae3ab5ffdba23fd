//! An order-preserving set with a fixed capacity bound.

use vstd::prelude::*;

use crate::kvec::KVec;

verus! {

/// Set-like struct over a bounded vector.
///
/// The set keeps its elements in insertion order. Membership testing and
/// duplicate-collapsing insertion are left to a wrapping type, which decides
/// what element equality means; the backing vector is public for that
/// purpose.
#[derive(Clone, PartialEq, Eq, Debug)]
pub struct KSet<T, const N: usize> {
    /// The backing vector of the set.
    pub vec: KVec<T, N>,
}

impl<T, const N: usize> View for KSet<T, N> {
    type V = Seq<T>;

    open spec fn view(&self) -> Seq<T> {
        self.vec@
    }
}

impl<T, const N: usize> KSet<T, N> {
    /// Returns the number of elements in the set, also referred to as its 'length'.
    pub fn len(&self) -> (l: usize)
        ensures
            l == self@.len(),
    {
        self.vec.len()
    }

    /// Returns true if the set contains no elements.
    pub fn is_empty(&self) -> (b: bool)
        ensures
            b == (self@.len() == 0),
    {
        self.vec.is_empty()
    }

    /// Returns the element at the index, or `None` if the index is out of range.
    pub fn get_by_idx(&self, index: usize) -> (r: Option<&T>)
        ensures
            match r {
                Some(e) => index < self@.len() && *e == self@[index as int],
                None => index >= self@.len(),
            },
    {
        self.vec.get(index)
    }

    /// Returns the element at the index, with no bounds check at run time.
    pub fn get_by_idx_unchecked(&self, index: usize) -> (r: &T)
        requires
            index < self@.len(),
        ensures
            *r == self@[index as int],
    {
        self.vec.get_unchecked(index)
    }
}

} // verus!
