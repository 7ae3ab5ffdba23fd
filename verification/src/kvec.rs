//! A vector with a fixed capacity bound.

use vstd::prelude::*;

verus! {

/// Order-preserving vector holding at most `N` elements.
///
/// The bound is part of the type: every operation that grows the vector
/// requires, by contract, that room is left, so a well-typed caller can never
/// overflow the capacity.
#[derive(Clone, PartialEq, Eq, Debug)]
pub struct KVec<T, const N: usize> {
    v: Vec<T>,
}

impl<T, const N: usize> View for KVec<T, N> {
    type V = Seq<T>;

    closed spec fn view(&self) -> Seq<T> {
        self.v@
    }
}

impl<T, const N: usize> KVec<T, N> {
    /// Constructs a new, empty vector.
    pub fn new() -> (r: Self)
        ensures
            r@ == Seq::<T>::empty(),
    {
        KVec { v: Vec::new() }
    }

    /// Returns the number of elements in the vector, also referred to as its 'length'.
    pub fn len(&self) -> (l: usize)
        ensures
            l == self@.len(),
    {
        self.v.len()
    }

    /// Returns true if the vector contains no elements.
    pub fn is_empty(&self) -> (b: bool)
        ensures
            b == (self@.len() == 0),
    {
        self.v.len() == 0
    }

    /// Returns a new vector with the elements cleared.
    #[must_use]
    pub fn clear(self) -> (r: Self)
        ensures
            r@ == Seq::<T>::empty(),
    {
        let mut v = self.v;
        v.clear();
        KVec { v }
    }

    /// Returns a new vector with the given element appended to it.
    #[must_use]
    pub fn push(self, elem: T) -> (r: Self)
        requires
            self@.len() < N,
        ensures
            r@ == self@.push(elem),
    {
        let mut v = self.v;
        v.push(elem);
        KVec { v }
    }

    /// Returns a new vector whose last element is replaced by the given one.
    #[must_use]
    pub fn set_last(self, elem: T) -> (r: Self)
        requires
            self@.len() > 0,
        ensures
            r@ == self@.update(self@.len() - 1, elem),
    {
        let mut v = self.v;
        let i = v.len() - 1;
        v[i] = elem;
        KVec { v }
    }

    /// Returns the element at the index, with no bounds check at run time:
    /// the bound is discharged by contract instead.
    pub fn get_unchecked(&self, elem_idx: usize) -> (r: &T)
        requires
            elem_idx < self@.len(),
        ensures
            *r == self@[elem_idx as int],
    {
        &self.v[elem_idx]
    }

    /// Returns the element at the index, or `None` if the index is out of range.
    pub fn get(&self, elem_idx: usize) -> (r: Option<&T>)
        ensures
            match r {
                Some(e) => elem_idx < self@.len() && *e == self@[elem_idx as int],
                None => elem_idx >= self@.len(),
            },
    {
        if self.is_empty() {
            return None;
        }
        if elem_idx >= self.v.len() {
            return None;
        }
        Some(&self.v[elem_idx])
    }

    /// Returns the last element of the vector, or `None` if it is empty.
    pub fn last(&self) -> (r: Option<&T>)
        ensures
            match r {
                Some(e) => self@.len() > 0 && *e == self@.last(),
                None => self@.len() == 0,
            },
    {
        if self.is_empty() {
            return None;
        }
        Some(&self.v[self.v.len() - 1])
    }

    /// Returns the vector without its last element, together with that
    /// element, or `None` if it is empty.
    #[must_use]
    pub(crate) fn pop(self) -> (r: Option<(Self, T)>)
        ensures
            match r {
                Some(p) => self@.len() > 0 && p.0@ == self@.drop_last() && p.1 == self@.last(),
                None => self@.len() == 0,
            },
    {
        let mut v = self.v;
        match v.pop() {
            Some(elem) => Some((KVec { v }, elem)),
            None => None,
        }
    }

    /// Borrows the elements as a slice.
    pub fn as_slice(&self) -> (r: &[T])
        ensures
            r@ == self@,
    {
        self.v.as_slice()
    }
}

} // verus!
