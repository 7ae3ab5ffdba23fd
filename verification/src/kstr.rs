//! A byte string with a fixed capacity bound.

use vstd::prelude::*;

use crate::ascii::{
    all_digits, dec_value, is_ascii_bytes, lemma_dec_value_take_le, lemma_dec_value_take_step,
};
use crate::kvec::KVec;
use vstd::string::StringSliceAdditionalSpecFns;

verus! {

/// String-like struct over a bounded byte vector.
///
/// It handles ASCII strings: arbitrary bytes can be stored, but turning the
/// contents back into `&str` asks for ASCII contents by contract.
#[derive(Clone, PartialEq, Eq, Debug)]
pub struct KStr<const N: usize> {
    vec: KVec<u8, N>,
}

impl<const N: usize> View for KStr<N> {
    type V = Seq<u8>;

    closed spec fn view(&self) -> Seq<u8> {
        self.vec@
    }
}

/// Relies on `core::str::from_utf8`: ASCII bytes are valid UTF-8, so the call
/// returns `Ok`, and the resulting string has exactly the given bytes.
#[verifier::external_body]
fn bytes_to_str(bytes: &[u8]) -> (r: &str)
    requires
        is_ascii_bytes(bytes@),
    ensures
        r.is_ascii(),
        r.spec_bytes() == bytes@,
{
    match core::str::from_utf8(bytes) {
        Ok(s) => s,
        Err(_) => "",
    }
}

impl<const N: usize> KStr<N> {
    /// Constructs a new, empty string.
    #[must_use]
    pub fn new() -> (r: Self)
        ensures
            r@ == Seq::<u8>::empty(),
    {
        KStr { vec: KVec::new() }
    }

    /// Creates a new string holding the bytes of a `&str`.
    #[must_use]
    pub fn from_str(string: &str) -> (r: Self)
        requires
            string.spec_bytes().len() <= N,
        ensures
            r@ == string.spec_bytes(),
    {
        let bytes = string.as_bytes();
        let mut vec: KVec<u8, N> = KVec::new();
        let mut idx: usize = 0;
        while idx < bytes.len()
            invariant
                idx <= bytes@.len() <= N,
                vec@ == bytes@.take(idx as int),
            decreases bytes@.len() - idx,
        {
            vec = vec.push(bytes[idx]);
            proof {
                assert(bytes@.take(idx + 1) =~= bytes@.take(idx as int).push(bytes@[idx as int]));
            }
            idx += 1;
        }
        proof {
            assert(bytes@.take(bytes@.len() as int) =~= bytes@);
        }
        KStr { vec }
    }

    /// Returns a new string with a given string appended onto its end.
    #[must_use]
    pub fn push_str(self, other: &Self) -> (r: Self)
        requires
            self@.len() + other@.len() <= N,
        ensures
            r@ == self@ + other@,
    {
        let mut res = self;
        let mut idx: usize = 0;
        while idx < other.len()
            invariant
                idx <= other@.len(),
                res@ == self@ + other@.take(idx as int),
                self@.len() + other@.len() <= N,
            decreases other@.len() - idx,
        {
            res = res.push(*other.get_unchecked(idx));
            proof {
                assert(self@ + other@.take(idx + 1) =~= (self@ + other@.take(idx as int)).push(
                    other@[idx as int],
                ));
            }
            idx += 1;
        }
        proof {
            assert(self@ + other@.take(other@.len() as int) =~= self@ + other@);
        }
        res
    }

    /// Returns a new string with a given byte appended to it.
    #[must_use]
    pub fn push(self, elem: u8) -> (r: Self)
        requires
            self@.len() < N,
        ensures
            r@ == self@.push(elem),
    {
        KStr { vec: self.vec.push(elem) }
    }

    /// Returns an option of a tuple of:
    /// - the string without its last byte
    /// - the last byte
    ///
    /// Returns `None` if the string is empty.
    #[must_use]
    pub fn pop(self) -> (r: Option<(Self, u8)>)
        ensures
            match r {
                Some(p) => self@.len() > 0 && p.0@ == self@.drop_last() && p.1 == self@.last(),
                None => self@.len() == 0,
            },
    {
        match self.vec.pop() {
            Some((vec, b)) => Some((KStr { vec }, b)),
            None => None,
        }
    }

    /// Parses the string as an unsigned positional decimal number.
    pub fn parse_usize(self) -> (r: usize)
        requires
            self@.len() > 0,
            all_digits(self@),
            dec_value(self@) <= usize::MAX,
        ensures
            r == dec_value(self@),
    {
        let bytes = self.vec.as_slice();
        let mut result: usize = 0;
        let mut idx: usize = 0;
        while idx < bytes.len()
            invariant
                bytes@ == self@,
                idx <= self@.len(),
                all_digits(self@),
                dec_value(self@) <= usize::MAX,
                result == dec_value(self@.take(idx as int)),
            decreases self@.len() - idx,
        {
            proof {
                lemma_dec_value_take_step(self@, idx as int);
                lemma_dec_value_take_le(self@, idx + 1);
            }
            let d = bytes[idx] - 48;
            result = result * 10 + (d as usize);
            idx += 1;
        }
        proof {
            assert(self@.take(self@.len() as int) =~= self@);
        }
        result
    }

    /// Returns a new string with the bytes cleared.
    #[must_use]
    pub fn clear(self) -> (r: Self)
        ensures
            r@ == Seq::<u8>::empty(),
    {
        KStr { vec: self.vec.clear() }
    }

    /// Returns true if the string contains no bytes.
    pub fn is_empty(&self) -> (b: bool)
        ensures
            b == (self@.len() == 0),
    {
        self.vec.is_empty()
    }

    /// Returns the number of bytes in the string, also referred to as its 'length'.
    pub fn len(&self) -> (l: usize)
        ensures
            l == self@.len(),
    {
        self.vec.len()
    }

    /// Returns the byte at the index, or `None` if the index is out of range.
    pub fn get(&self, elem_idx: usize) -> (r: Option<&u8>)
        ensures
            match r {
                Some(b) => elem_idx < self@.len() && *b == self@[elem_idx as int],
                None => elem_idx >= self@.len(),
            },
    {
        self.vec.get(elem_idx)
    }

    /// Returns the byte at the index, with no bounds check at run time.
    pub fn get_unchecked(&self, elem_idx: usize) -> (r: &u8)
        requires
            elem_idx < self@.len(),
        ensures
            *r == self@[elem_idx as int],
    {
        self.vec.get_unchecked(elem_idx)
    }

    /// Returns the last byte of the string, or `None` if it is empty.
    pub fn last(&self) -> (r: Option<&u8>)
        ensures
            match r {
                Some(b) => self@.len() > 0 && *b == self@.last(),
                None => self@.len() == 0,
            },
    {
        self.vec.last()
    }

    /// Borrows the contents as `&str`; the contents must be ASCII.
    pub fn as_str(&self) -> (r: &str)
        requires
            is_ascii_bytes(self@),
        ensures
            r.is_ascii(),
            r.spec_bytes() == self@,
    {
        bytes_to_str(self.vec.as_slice())
    }
}

} // verus!
