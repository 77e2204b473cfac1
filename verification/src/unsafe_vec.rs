//! The buffer of which nothing is claimed.

use crate::sorted_vec::SortedVec;
use crate::unsorted_vec::UnsortedVec;
use vstd::prelude::*;
use vstd::std_specs::convert::FromSpecImpl;
use vstd::std_specs::vec::spec_into_iter;

verus! {

/// A vector in the unsafe state: its items are open to everyone, and nothing
/// is known of their order.
#[derive(Debug, Default, Eq, PartialEq, Ord, PartialOrd)]
pub struct UnsafeVec<T> {
    pub vec: Vec<T>,
}

impl<T> View for UnsafeVec<T> {
    type V = Seq<T>;

    /// The items, in storage order.
    open spec fn view(&self) -> Seq<T> {
        self.vec@
    }
}

impl<T: Ord> From<SortedVec<T>> for UnsafeVec<T> {
    fn from(x: SortedVec<T>) -> (v: UnsafeVec<T>)
        ensures
            v@ == x@,
    {
        UnsafeVec { vec: x.into_items() }
    }
}

impl<T: Ord> FromSpecImpl<SortedVec<T>> for UnsafeVec<T> {
    open spec fn obeys_from_spec() -> bool {
        true
    }

    closed spec fn from_spec(x: SortedVec<T>) -> UnsafeVec<T> {
        UnsafeVec { vec: x.0 }
    }
}

impl<T> From<UnsortedVec<T>> for UnsafeVec<T> {
    fn from(x: UnsortedVec<T>) -> (v: UnsafeVec<T>)
        ensures
            v@ == x@,
    {
        UnsafeVec { vec: x.into_items() }
    }
}

impl<T> FromSpecImpl<UnsortedVec<T>> for UnsafeVec<T> {
    open spec fn obeys_from_spec() -> bool {
        true
    }

    closed spec fn from_spec(x: UnsortedVec<T>) -> UnsafeVec<T> {
        UnsafeVec { vec: x.0 }
    }
}

impl<T> IntoIterator for UnsafeVec<T> {
    type Item = T;

    type IntoIter = std::vec::IntoIter<T>;

    /// The vector's own iterator over the items.
    fn into_iter(self) -> (iter: std::vec::IntoIter<T>)
        ensures
            iter == spec_into_iter(self.vec),
    {
        self.vec.into_iter()
    }
}

} // verus!
