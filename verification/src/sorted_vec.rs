//! The buffer whose contents are known to be sorted, and its iterator.

use crate::drain::last_item;
use crate::drain::next_item;
use crate::drain::next_pending;
use crate::drain::queue_of;
use crate::order::is_le;
use crate::order::is_sorted;
use crate::order::le;
use crate::order::lemma_sorted_by_neighbours;
use crate::order::lemma_sorted_pair;
use crate::order::total_order;
use crate::sorting::lemma_sort_seq_keeps_sorted;
use crate::sorting::lemma_sort_seq_sorted;
use crate::sorting::sort_seq;
use crate::sorting::sort_vec;
use crate::unsorted_vec::items_eq;
use crate::unsorted_vec::UnsortedVec;
use std::collections::VecDeque;
use vstd::prelude::*;
use vstd::std_specs::cmp::PartialEqSpec;
use vstd::std_specs::cmp::PartialEqSpecImpl;
use vstd::std_specs::convert::TryFromSpecImpl;
use vstd::std_specs::iter::IteratorSpecImpl;

verus! {

/// What [`SortedVec::try_from`] answers to a vector that is not sorted.
pub const NOT_SORTED: &'static str =
    "attempting to perform a conversion from a non-sorted `Vec` to `SortedVector`.";

/// A vector whose items are in non-decreasing order.
#[derive(Debug)]
pub struct SortedVec<T: Ord>(pub(crate) Vec<T>);

impl<T: Ord> View for SortedVec<T> {
    type V = Seq<T>;

    /// The items, in storage order.
    closed spec fn view(&self) -> Seq<T> {
        self.0@
    }
}

impl<T: Ord> SortedVec<T> {
    /// Where `T` has a total order, the items are sorted by it.
    #[verifier::type_invariant]
    spec fn ordered(self) -> bool {
        total_order::<T>() ==> is_sorted(self.0@)
    }

    /// The buffer's vector.
    pub(crate) fn into_items(self) -> (items: Vec<T>)
        ensures
            items == self.0,
            items@ == self@,
            total_order::<T>() ==> is_sorted(items@),
    {
        proof {
            use_type_invariant(&self);
        }
        self.0
    }

    /// The sorted buffer of a vector's items.
    pub(crate) fn by_sorting(items: Vec<T>) -> (sorted: SortedVec<T>)
        ensures
            sorted@.to_multiset() == items@.to_multiset(),
            total_order::<T>() ==> sorted@ == sort_seq(items@),
            total_order::<T>() ==> is_sorted(sorted@),
    {
        let in_order = sort_vec(items);
        proof {
            if total_order::<T>() {
                lemma_sort_seq_sorted(items@);
            }
        }
        SortedVec(in_order)
    }
}

impl<T: Ord + Default> Default for SortedVec<T> {
    fn default() -> (v: SortedVec<T>)
        ensures
            v@ == Seq::<T>::empty(),
    {
        SortedVec(Vec::new())
    }
}

impl<T: Ord> PartialEq for SortedVec<T> {
    fn eq(&self, other: &Self) -> (r: bool)
        ensures
            T::obeys_eq_spec() ==> r == items_eq(self@, other@),
    {
        self.0 == other.0
    }
}

impl<T: Ord> PartialEqSpecImpl for SortedVec<T> {
    open spec fn obeys_eq_spec() -> bool {
        T::obeys_eq_spec()
    }

    open spec fn eq_spec(&self, other: &Self) -> bool {
        items_eq(self@, other@)
    }
}

impl<T: Ord> Eq for SortedVec<T> {

}

impl<T: Ord> AsRef<[T]> for SortedVec<T> {
    /// The items as a slice, which is in non-decreasing order.
    fn as_ref(&self) -> (items: &[T])
        ensures
            items@ == self@,
            total_order::<T>() ==> is_sorted(self@),
    {
        proof {
            use_type_invariant(self);
        }
        self.0.as_slice()
    }
}

impl<T: Ord> IntoIterator for SortedVec<T> {
    type Item = T;

    type IntoIter = SortedVecIterator<T>;

    /// The iterator takes the buffer's items over, in storage order, which is
    /// non-decreasing.
    fn into_iter(self) -> (iter: SortedVecIterator<T>)
        ensures
            iter.pending() == self@,
            total_order::<T>() ==> is_sorted(self@),
    {
        proof {
            use_type_invariant(&self);
        }
        SortedVecIterator { queue: queue_of(self.0) }
    }
}

impl<T: Ord> TryFrom<Vec<T>> for SortedVec<T> {
    type Error = &'static str;

    /// Tries to create a [`SortedVec`] from a `Vec`: a vector that is sorted
    /// is taken as it is, any other is refused with [`NOT_SORTED`].
    fn try_from(from: Vec<T>) -> (r: Result<SortedVec<T>, &'static str>)
        ensures
            total_order::<T>() ==> (r is Ok <==> is_sorted(from@)),
            r matches Ok(sorted) ==> sorted@ == from@,
            r matches Err(message) ==> message == NOT_SORTED,
    {
        let n: usize = from.len();
        let mut i: usize = 1;
        while i < n
            invariant
                n == from.len(),
                1 <= i,
                total_order::<T>() ==> forall|k: int|
                    0 < k < i && k < n ==> le(from@[k - 1], #[trigger] from@[k]),
            decreases n - i,
        {
            if !is_le(&from[i - 1], &from[i]) {
                return Err(NOT_SORTED);
            }
            i += 1;
        }
        proof {
            if total_order::<T>() {
                lemma_sorted_by_neighbours(from@);
            }
        }
        Ok(SortedVec(from))
    }
}

impl<T: Ord> TryFromSpecImpl<Vec<T>> for SortedVec<T> {
    open spec fn obeys_try_from_spec() -> bool {
        total_order::<T>()
    }

    closed spec fn try_from_spec(from: Vec<T>) -> Result<Self, &'static str> {
        if is_sorted(from@) {
            Ok(SortedVec(from))
        } else {
            Err(NOT_SORTED)
        }
    }
}

impl<T: Ord> SortedVec<T> {
    /// Pushes an element into the vector and returns an [`UnsortedVec`]
    /// variant of this vector: with the new item at its end the contents are
    /// not known to be sorted any more, whatever the item is.
    pub fn push(self, item: T) -> (v: UnsortedVec<T>)
        ensures
            v@ == self@.push(item),
    {
        let mut items = self.0;
        items.push(item);
        UnsortedVec::of_items(items)
    }

    /// The number of items.
    pub fn len(&self) -> (n: usize)
        ensures
            n == self@.len(),
    {
        self.0.len()
    }

    /// Sorting what is sorted changes nothing.
    pub fn sort(self) -> (sorted: SortedVec<T>)
        ensures
            sorted@ == self@,
            total_order::<T>() ==> sorted@ == sort_seq(self@),
    {
        proof {
            use_type_invariant(&self);
            if total_order::<T>() {
                lemma_sort_seq_keeps_sorted(self@);
            }
        }
        self
    }
}

/// The iterator that owns what was a [`SortedVec`]'s items and hands them out
/// one by one, in non-decreasing order.
#[derive(Debug)]
pub struct SortedVecIterator<T: Ord> {
    pub(crate) queue: VecDeque<T>,
}

impl<T: Ord> SortedVecIterator<T> {
    /// Where `T` has a total order, the pending items are sorted by it.
    #[verifier::type_invariant]
    spec fn ordered(self) -> bool {
        total_order::<T>() ==> is_sorted(self.queue@)
    }

    /// The items not handed out yet, the next one first.
    pub closed spec fn pending(&self) -> Seq<T> {
        self.queue@
    }

    /// Returns the nth of the pending elements, counted from 0, and leaves it
    /// pending. This operation is O(1).
    pub fn nth(&self, n: usize) -> (item: Option<&T>)
        ensures
            n < self.pending().len() ==> item == Some(&self.pending()[n as int]),
            n >= self.pending().len() ==> item.is_none(),
            total_order::<T>() ==> is_sorted(self.pending()),
    {
        proof {
            use_type_invariant(self);
        }
        if n < self.queue.len() {
            Some(&self.queue[n])
        } else {
            None
        }
    }
}

impl<T: Ord> Iterator for SortedVecIterator<T> {
    type Item = T;

    /// Returns the current element and marches the iterator forward.
    /// This operation is O(1).
    fn next(&mut self) -> (item: Option<T>)
        ensures
            item == next_item(old(self).pending()),
            final(self).pending() == next_pending(old(self).pending()),
            total_order::<T>() ==> is_sorted(old(self).pending()),
    {
        proof {
            use_type_invariant(&*self);
        }
        // The queue is taken out while it changes, and put back in order.
        let mut queue: VecDeque<T> = VecDeque::new();
        std::mem::swap(&mut queue, &mut self.queue);
        let item = queue.pop_front();
        proof {
            assert forall|i: int, j: int|
                0 <= i < j < queue@.len() && total_order::<T>() implies le(
                #[trigger] queue@[i],
                #[trigger] queue@[j],
            ) by {
                assert(le(old(self).queue@[i + 1], old(self).queue@[j + 1]));
            }
        }
        self.queue = queue;
        item
    }

    /// How many items are pending, as both bounds.
    fn size_hint(&self) -> (bounds: (usize, Option<usize>))
        ensures
            bounds.0 == self.pending().len(),
            bounds.1 == Some(bounds.0),
    {
        let n: usize = self.queue.len();
        (n, Some(n))
    }

    /// Returns the number of elements inside this iterator.
    /// This operation is O(1).
    fn count(self) -> (n: usize)
        ensures
            n == self.pending().len(),
    {
        self.queue.len()
    }

    /// Returns the last of the pending elements.
    /// This operation is O(1).
    fn last(self) -> (item: Option<T>)
        ensures
            item == last_item(self.pending()),
    {
        let mut queue = self.queue;
        queue.pop_back()
    }

    /// Returns the max of the pending elements, which is the last of them.
    /// This operation is O(1).
    fn max(self) -> (item: Option<T>)
        ensures
            item == last_item(self.pending()),
            total_order::<T>() ==> forall|k: int|
                0 <= k < self.pending().len() ==> le(
                    #[trigger] self.pending()[k],
                    self.pending().last(),
                ),
    {
        proof {
            use_type_invariant(&self);
            assert forall|k: int| 0 <= k < self.queue@.len() && total_order::<T>() implies le(
                #[trigger] self.queue@[k],
                self.queue@.last(),
            ) by {
                lemma_sorted_pair(self.queue@, k, self.queue@.len() - 1);
            }
        }
        let mut queue = self.queue;
        queue.pop_back()
    }

    /// Returns the min of the pending elements, which is the first of them.
    /// This operation is O(1).
    fn min(self) -> (item: Option<T>)
        ensures
            item == next_item(self.pending()),
            total_order::<T>() ==> forall|k: int|
                0 <= k < self.pending().len() ==> le(
                    self.pending()[0],
                    #[trigger] self.pending()[k],
                ),
    {
        proof {
            use_type_invariant(&self);
            assert forall|k: int| 0 <= k < self.queue@.len() && total_order::<T>() implies le(
                self.queue@[0],
                #[trigger] self.queue@[k],
            ) by {
                lemma_sorted_pair(self.queue@, 0, k);
            }
        }
        let mut queue = self.queue;
        queue.pop_front()
    }
}

impl<T: Ord> IteratorSpecImpl for SortedVecIterator<T> {
    open spec fn obeys_prophetic_iter_laws(&self) -> bool {
        true
    }

    open spec fn remaining(&self) -> Seq<T> {
        self.pending()
    }

    open spec fn will_return_none(&self) -> bool {
        true
    }

    open spec fn decrease(&self) -> Option<nat> {
        Some(self.pending().len())
    }

    open spec fn initial_value_relation(&self, init: &Self) -> bool {
        self.pending() == init.pending()
    }

    open spec fn peek(&self, index: int) -> Option<T> {
        if 0 <= index < self.pending().len() {
            Some(self.pending()[index])
        } else {
            None
        }
    }
}

} // verus!
