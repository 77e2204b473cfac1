//! The buffer whose contents are in no known order, and its iterator.

use crate::drain::next_item;
use crate::drain::next_pending;
use crate::drain::queue_of;
use crate::order::is_sorted;
use crate::order::total_order;
use crate::sorted_vec::SortedVec;
use crate::sorting::sort_seq;
use std::collections::VecDeque;
use vstd::prelude::*;
use vstd::std_specs::cmp::PartialEqSpec;
use vstd::std_specs::cmp::PartialEqSpecImpl;
use vstd::std_specs::convert::FromSpecImpl;
use vstd::std_specs::iter::IteratorSpecImpl;

verus! {

/// An unsorted variant of the vector.
#[derive(Debug)]
pub struct UnsortedVec<T>(pub(crate) Vec<T>);

impl<T> View for UnsortedVec<T> {
    type V = Seq<T>;

    /// The items, in storage order.
    closed spec fn view(&self) -> Seq<T> {
        self.0@
    }
}

/// `a` and `b` are of one length and hold, place by place, items that are
/// equal by the `==` of their type.
pub open spec fn items_eq<T: PartialEq>(a: Seq<T>, b: Seq<T>) -> bool {
    &&& a.len() == b.len()
    &&& forall|i: int| 0 <= i < a.len() ==> #[trigger] a[i].eq_spec(&b[i])
}

/// What a buffer that held `start` holds once `items` have been pushed, first
/// to last.
pub open spec fn pushed<T>(start: Seq<T>, items: Seq<T>) -> Seq<T>
    decreases items.len(),
{
    if items.len() == 0 {
        start
    } else {
        pushed(start, items.drop_last()).push(items.last())
    }
}

/// Pushes append: after them the buffer holds what it held, then the pushed
/// items in the order of the pushes. So the length grows by the number of the
/// pushes, and a new buffer has after N pushes the length N.
pub proof fn lemma_pushed<T>(start: Seq<T>, items: Seq<T>)
    ensures
        pushed(start, items) == start + items,
        pushed(start, items).len() == start.len() + items.len(),
        pushed(Seq::<T>::empty(), items).len() == items.len(),
    decreases items.len(), start.len(),
{
    if items.len() == 0 {
        assert(start + items =~= start);
    } else {
        lemma_pushed(start, items.drop_last());
        assert((start + items.drop_last()).push(items.last()) =~= start + items);
    }
    if start.len() > 0 {
        lemma_pushed(Seq::<T>::empty(), items);
    }
}

impl<T: Default> Default for UnsortedVec<T> {
    fn default() -> (v: UnsortedVec<T>)
        ensures
            v@ == Seq::<T>::empty(),
    {
        UnsortedVec(Vec::new())
    }
}

impl<T: PartialEq> PartialEq for UnsortedVec<T> {
    fn eq(&self, other: &Self) -> (r: bool)
        ensures
            T::obeys_eq_spec() ==> r == items_eq(self@, other@),
    {
        self.0 == other.0
    }

    fn ne(&self, other: &Self) -> (r: bool)
        ensures
            T::obeys_eq_spec() ==> r == !items_eq(self@, other@),
    {
        !(self.0 == other.0)
    }
}

impl<T: PartialEq> PartialEqSpecImpl for UnsortedVec<T> {
    open spec fn obeys_eq_spec() -> bool {
        T::obeys_eq_spec()
    }

    open spec fn eq_spec(&self, other: &Self) -> bool {
        items_eq(self@, other@)
    }
}

impl<T: PartialEq + Eq> Eq for UnsortedVec<T> {

}

impl<T> AsRef<[T]> for UnsortedVec<T> {
    /// Returns the reference.
    fn as_ref(&self) -> (items: &[T])
        ensures
            items@ == self@,
    {
        self.0.as_slice()
    }
}

/// A sorted buffer may be taken for an unsorted one as it is.
impl<T: Ord> From<SortedVec<T>> for UnsortedVec<T> {
    fn from(sorted: SortedVec<T>) -> (v: UnsortedVec<T>)
        ensures
            v@ == sorted@,
    {
        UnsortedVec(sorted.into_items())
    }
}

impl<T: Ord> FromSpecImpl<SortedVec<T>> for UnsortedVec<T> {
    open spec fn obeys_from_spec() -> bool {
        true
    }

    closed spec fn from_spec(sorted: SortedVec<T>) -> UnsortedVec<T> {
        UnsortedVec(sorted.0)
    }
}

/// [`UnsortedVec`] can be converted into an [`Iterator`].
impl<T> IntoIterator for UnsortedVec<T> {
    type Item = T;

    type IntoIter = UnsortedVecIterator<T>;

    /// Performs the conversion: the iterator takes the buffer's items over,
    /// in storage order.
    fn into_iter(self) -> (iter: UnsortedVecIterator<T>)
        ensures
            iter.pending() == self@,
    {
        UnsortedVecIterator { queue: queue_of(self.0) }
    }
}

impl<T> UnsortedVec<T> {
    /// The buffer of a vector's items.
    pub(crate) fn of_items(items: Vec<T>) -> (v: UnsortedVec<T>)
        ensures
            v.0 == items,
            v@ == items@,
    {
        UnsortedVec(items)
    }

    /// The buffer's vector.
    pub(crate) fn into_items(self) -> (items: Vec<T>)
        ensures
            items == self.0,
            items@ == self@,
    {
        self.0
    }
}

impl<T> UnsortedVec<T> {
    /// Creates a new empty [`UnsortedVec`].
    /// This is different than [`Default`] because it does not require `T` to be [`Default`].
    pub fn new() -> (v: UnsortedVec<T>)
        ensures
            v@ == Seq::<T>::empty(),
    {
        UnsortedVec(Vec::new())
    }

    /// Push an element.
    pub fn push(self, item: T) -> (v: Self)
        ensures
            v@ == self@.push(item),
    {
        let mut items = self.0;
        items.push(item);
        UnsortedVec(items)
    }

    /// Sorts the items into non-decreasing order; items that the order does
    /// not tell apart keep their order.
    pub fn sort(self) -> (sorted: SortedVec<T>) where T: Ord
        ensures
            sorted@.to_multiset() == self@.to_multiset(),
            total_order::<T>() ==> sorted@ == sort_seq(self@),
            total_order::<T>() ==> is_sorted(sorted@),
    {
        SortedVec::by_sorting(self.0)
    }

    /// The number of items.
    pub fn len(&self) -> (n: usize)
        ensures
            n == self@.len(),
    {
        self.0.len()
    }
}

/// The iterator that owns what was an [`UnsortedVec`]'s items and hands them
/// out one by one, in storage order.
#[derive(Debug)]
pub struct UnsortedVecIterator<T> {
    pub(crate) queue: VecDeque<T>,
}

impl<T> UnsortedVecIterator<T> {
    /// The items not handed out yet, the next one first.
    pub closed spec fn pending(&self) -> Seq<T> {
        self.queue@
    }
}

impl<T> Iterator for UnsortedVecIterator<T> {
    type Item = T;

    /// Returns the current element and marches the iterator forward.
    /// This operation is O(1).
    fn next(&mut self) -> (item: Option<T>)
        ensures
            item == next_item(old(self).pending()),
            final(self).pending() == next_pending(old(self).pending()),
    {
        self.queue.pop_front()
    }

    /// How many items are pending, as both bounds.
    fn size_hint(&self) -> (bounds: (usize, Option<usize>))
        ensures
            bounds.0 == self.pending().len(),
            bounds.1 == Some(bounds.0),
    {
        let n: usize = self.queue.len();
        (n, Some(n))
    }

    /// Returns the number of elements inside this iterator.
    /// This operation is O(1).
    fn count(self) -> (n: usize)
        ensures
            n == self.pending().len(),
    {
        self.queue.len()
    }
}

impl<T> IteratorSpecImpl for UnsortedVecIterator<T> {
    open spec fn obeys_prophetic_iter_laws(&self) -> bool {
        true
    }

    open spec fn remaining(&self) -> Seq<T> {
        self.pending()
    }

    open spec fn will_return_none(&self) -> bool {
        true
    }

    open spec fn decrease(&self) -> Option<nat> {
        Some(self.pending().len())
    }

    open spec fn initial_value_relation(&self, init: &Self) -> bool {
        self.pending() == init.pending()
    }

    open spec fn peek(&self, index: int) -> Option<T> {
        if 0 <= index < self.pending().len() {
            Some(self.pending()[index])
        } else {
            None
        }
    }
}

} // verus!
