//! Growable buffers that carry in their type whether their contents are known
//! to be sorted, and the owning iterators that drain them.

pub mod drain;
pub mod order;
pub mod sorted_vec;
pub mod sorting;
pub mod unsafe_vec;
pub mod unsorted_vec;

use crate::order::is_sorted;
use crate::order::total_order;
use crate::sorting::lemma_sort_seq_sorted;
use crate::sorting::sort_seq;
use crate::sorting::sort_vec;
use vstd::prelude::*;

verus! {

/// A vector that carries as its variant what is known of it.
#[derive(Debug)]
pub enum Mofu<T> {
    /// The default state: no information.
    Normal(Vec<T>),
    /// The unsafe state.
    Unsafe(Vec<T>),
    /// Taken to be sorted.
    Sorted(Vec<T>),
}

impl<T> View for Mofu<T> {
    type V = Seq<T>;

    /// The items, in storage order, whatever the variant.
    open spec fn view(&self) -> Seq<T> {
        match self {
            Mofu::Normal(x) => x@,
            Mofu::Unsafe(x) => x@,
            Mofu::Sorted(x) => x@,
        }
    }
}

impl<T> Default for Mofu<T> {
    fn default() -> (m: Self)
        ensures
            m is Normal,
            m@ == Seq::<T>::empty(),
    {
        Mofu::Normal(Vec::new())
    }
}

impl<T> Mofu<T> {
    /// Takes a vector out of the unsafe state; any other is left as it is.
    pub fn guarantee_safe(self) -> (m: Self)
        ensures
            m == (match self {
                Mofu::Unsafe(x) => Mofu::Normal(x),
                other => other,
            }),
    {
        match self {
            Mofu::Unsafe(x) => Mofu::Normal(x),
            _ => self,
        }
    }

    /// Appends an item. A sorted vector is not known to be sorted any more;
    /// the other two stay what they are.
    pub fn push(self, item: T) -> (m: Self)
        ensures
            m@ == self@.push(item),
            self is Unsafe ==> m is Unsafe,
            !(self is Unsafe) ==> m is Normal,
    {
        match self {
            Mofu::Normal(x) => {
                let mut x = x;
                x.push(item);
                Mofu::Normal(x)
            },
            Mofu::Unsafe(x) => {
                let mut x = x;
                x.push(item);
                Mofu::Unsafe(x)
            },
            Mofu::Sorted(x) => {
                let mut x = x;
                x.push(item);
                Mofu::Normal(x)
            },
        }
    }

    /// Sorts the items into non-decreasing order, and marks the vector as
    /// sorted. One that is marked so already is left as it is.
    pub fn sort(self) -> (m: Self) where T: Ord
        ensures
            m is Sorted,
            self is Sorted ==> m == self,
            m@.to_multiset() == self@.to_multiset(),
            !(self is Sorted) && total_order::<T>() ==> m@ == sort_seq(self@) && is_sorted(m@),
    {
        proof {
            if total_order::<T>() {
                lemma_sort_seq_sorted(self@);
            }
        }
        match self {
            Mofu::Normal(x) => Mofu::Sorted(sort_vec(x)),
            Mofu::Unsafe(x) => Mofu::Sorted(sort_vec(x)),
            Mofu::Sorted(_) => self,
        }
    }
}

} // verus!
