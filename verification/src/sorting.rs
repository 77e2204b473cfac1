//! Stable sorting of a vector by its elements' own order.
//!
//! [`sort_seq`] says what the sorted sequence is; [`sort_vec`] computes it by a
//! merge sort, and the lemmas below say what makes it a sort.

use crate::order::is_le;
use crate::order::is_sorted;
use crate::order::le;
use crate::order::lemma_le_total;
use crate::order::lemma_le_transitive;
use crate::order::lemma_sorted_pair;
use crate::order::total_order;
use vstd::multiset::lemma_multiset_empty_len;
use vstd::multiset::Multiset;
use vstd::prelude::*;
use vstd::seq_lib::lemma_multiset_commutative;
use vstd::seq_lib::to_multiset_build;
use vstd::seq_lib::to_multiset_len;

verus! {

/// `s` with `x` put in from the back: behind the last item that does not come
/// after `x`, or in front where every item comes after it.
pub open spec fn insert_ordered<T: Ord>(s: Seq<T>, x: T) -> Seq<T>
    decreases s.len(),
{
    if s.len() == 0 || le(s.last(), x) {
        s.push(x)
    } else {
        insert_ordered(s.drop_last(), x).push(s.last())
    }
}

/// The stable sort of `s`: its items, taken first to last, each put in behind
/// the items placed before it that do not come after it. Items that the order
/// does not tell apart keep the order they had in `s`.
pub open spec fn sort_seq<T: Ord>(s: Seq<T>) -> Seq<T>
    decreases s.len(),
{
    if s.len() == 0 {
        s
    } else {
        insert_ordered(sort_seq(s.drop_last()), s.last())
    }
}

/// `a` and `b` have one place in the order: neither comes after the other.
pub open spec fn same_rank<T: Ord>(a: T, b: T) -> bool {
    le(a, b) && le(b, a)
}

/// The test that picks the items which have `z`'s place in the order.
pub open spec fn of_rank<T: Ord>(z: T) -> spec_fn(T) -> bool {
    |y: T| same_rank(y, z)
}

/// `a` and `b` run into one from the back: the later of the two last items
/// comes last, and `b`'s where neither is later.
spec fn merge_seq<T: Ord>(a: Seq<T>, b: Seq<T>) -> Seq<T>
    decreases a.len() + b.len(),
{
    if a.len() == 0 {
        b
    } else if b.len() == 0 {
        a
    } else if le(a.last(), b.last()) {
        merge_seq(a, b.drop_last()).push(b.last())
    } else {
        merge_seq(a.drop_last(), b).push(a.last())
    }
}

/// Putting an item in adds it once and keeps every other item.
pub proof fn lemma_insert_ordered_permutes<T: Ord>(s: Seq<T>, x: T)
    ensures
        insert_ordered(s, x).len() == s.len() + 1,
        insert_ordered(s, x).to_multiset() == s.to_multiset().insert(x),
    decreases s.len(),
{
    if s.len() == 0 || le(s.last(), x) {
        to_multiset_build(s, x);
    } else {
        let front = s.drop_last();
        lemma_insert_ordered_permutes(front, x);
        to_multiset_build(insert_ordered(front, x), s.last());
        to_multiset_build(front, s.last());
        assert(front.push(s.last()) =~= s);
        assert(front.to_multiset().insert(x).insert(s.last()) =~= front.to_multiset().insert(
            s.last(),
        ).insert(x));
    }
}

/// An item that neither `x` nor any item of `s` comes after is not come after
/// by any item of `s` with `x` put in.
proof fn lemma_insert_ordered_bounded<T: Ord>(s: Seq<T>, x: T, top: T)
    requires
        le(x, top),
        forall|k: int| 0 <= k < s.len() ==> le(#[trigger] s[k], top),
    ensures
        forall|k: int| 0 <= k < insert_ordered(s, x).len() ==> le(
            #[trigger] insert_ordered(s, x)[k],
            top,
        ),
    decreases s.len(),
{
    if s.len() == 0 || le(s.last(), x) {
    } else {
        let front = s.drop_last();
        assert forall|k: int| 0 <= k < front.len() implies le(#[trigger] front[k], top) by {
            assert(front[k] == s[k]);
        }
        lemma_insert_ordered_bounded(front, x, top);
        lemma_insert_ordered_permutes(front, x);
        assert(le(s[s.len() - 1], top));
    }
}

/// Putting an item into a sorted sequence leaves it sorted.
pub proof fn lemma_insert_ordered_sorted<T: Ord>(s: Seq<T>, x: T)
    requires
        total_order::<T>(),
        is_sorted(s),
    ensures
        is_sorted(insert_ordered(s, x)),
    decreases s.len(),
{
    let r = insert_ordered(s, x);
    if s.len() == 0 {
    } else if le(s.last(), x) {
        assert forall|i: int, j: int| 0 <= i < j < r.len() implies le(
            #[trigger] r[i],
            #[trigger] r[j],
        ) by {
            if j < s.len() {
                assert(le(s[i], s[j]));
            } else {
                lemma_sorted_pair(s, i, s.len() - 1);
                lemma_le_transitive(s[i], s.last(), x);
            }
        }
    } else {
        let front = s.drop_last();
        let inner = insert_ordered(front, x);
        assert forall|i: int, j: int| 0 <= i < j < front.len() implies le(
            #[trigger] front[i],
            #[trigger] front[j],
        ) by {
            assert(le(s[i], s[j]));
        }
        lemma_insert_ordered_sorted(front, x);
        lemma_insert_ordered_permutes(front, x);
        lemma_le_total(s.last(), x);
        assert forall|k: int| 0 <= k < front.len() implies le(#[trigger] front[k], s.last()) by {
            assert(le(s[k], s[s.len() - 1]));
        }
        lemma_insert_ordered_bounded(front, x, s.last());
        assert forall|i: int, j: int| 0 <= i < j < r.len() implies le(
            #[trigger] r[i],
            #[trigger] r[j],
        ) by {
            if j < inner.len() {
                assert(le(inner[i], inner[j]));
            } else {
                assert(le(inner[i], s.last()));
            }
        }
    }
}

/// Sorting neither adds nor loses an item: the sorted sequence holds each item
/// as often as the sequence did.
pub proof fn lemma_sort_seq_permutes<T: Ord>(s: Seq<T>)
    ensures
        sort_seq(s).len() == s.len(),
        sort_seq(s).to_multiset() == s.to_multiset(),
    decreases s.len(),
{
    if s.len() > 0 {
        let front = s.drop_last();
        lemma_sort_seq_permutes(front);
        lemma_insert_ordered_permutes(sort_seq(front), s.last());
        to_multiset_build(front, s.last());
        assert(front.push(s.last()) =~= s);
    }
}

/// The sorted sequence is in non-decreasing order.
pub proof fn lemma_sort_seq_sorted<T: Ord>(s: Seq<T>)
    requires
        total_order::<T>(),
    ensures
        is_sorted(sort_seq(s)),
    decreases s.len(),
{
    if s.len() > 0 {
        lemma_sort_seq_sorted(s.drop_last());
        lemma_insert_ordered_sorted(sort_seq(s.drop_last()), s.last());
    }
}

/// Sorting a sequence that is in order already changes nothing.
pub proof fn lemma_sort_seq_keeps_sorted<T: Ord>(s: Seq<T>)
    requires
        total_order::<T>(),
        is_sorted(s),
    ensures
        sort_seq(s) == s,
    decreases s.len(),
{
    if s.len() > 0 {
        let front = s.drop_last();
        assert forall|i: int, j: int| 0 <= i < j < front.len() implies le(
            #[trigger] front[i],
            #[trigger] front[j],
        ) by {
            assert(le(s[i], s[j]));
        }
        lemma_sort_seq_keeps_sorted(front);
        if front.len() > 0 {
            assert(le(s[front.len() - 1], s[s.len() - 1]));
            assert(front.last() == s[front.len() - 1]);
        }
        assert(front.push(s.last()) =~= s);
    }
}

/// Sorting twice gives what sorting once gives.
pub proof fn lemma_sort_seq_idempotent<T: Ord>(s: Seq<T>)
    requires
        total_order::<T>(),
    ensures
        sort_seq(sort_seq(s)) == sort_seq(s),
{
    lemma_sort_seq_sorted(s);
    lemma_sort_seq_keeps_sorted(sort_seq(s));
}

/// Putting an item in leaves the items of every rank in their order, the new
/// item behind those of its own rank.
proof fn lemma_insert_ordered_stable<T: Ord>(s: Seq<T>, x: T, z: T)
    requires
        total_order::<T>(),
    ensures
        insert_ordered(s, x).filter(of_rank(z)) == (if same_rank(x, z) {
            s.filter(of_rank(z)).push(x)
        } else {
            s.filter(of_rank(z))
        }),
    decreases s.len(),
{
    reveal(Seq::filter);
    if s.len() == 0 || le(s.last(), x) {
        assert(s.push(x).drop_last() =~= s);
    } else {
        let front = s.drop_last();
        lemma_insert_ordered_stable(front, x, z);
        assert(insert_ordered(front, x).push(s.last()).drop_last() =~= insert_ordered(front, x));
        if same_rank(x, z) && same_rank(s.last(), z) {
            lemma_le_transitive(s.last(), z, x);
        }
    }
}

/// Sorting is stable: the items that have one place in the order stand in the
/// sorted sequence in the order they had.
pub proof fn lemma_sort_seq_stable<T: Ord>(s: Seq<T>, z: T)
    requires
        total_order::<T>(),
    ensures
        sort_seq(s).filter(of_rank(z)) == s.filter(of_rank(z)),
    decreases s.len(),
{
    reveal(Seq::filter);
    if s.len() > 0 {
        lemma_sort_seq_stable(s.drop_last(), z);
        lemma_insert_ordered_stable(sort_seq(s.drop_last()), s.last(), z);
    }
}

/// To put an item into the merge of two sequences is to merge the first with
/// the second that has the item put in.
proof fn lemma_insert_into_merge<T: Ord>(a: Seq<T>, b: Seq<T>, x: T)
    requires
        total_order::<T>(),
    ensures
        insert_ordered(merge_seq(a, b), x) == merge_seq(a, insert_ordered(b, x)),
    decreases a.len() + b.len(),
{
    let merged = merge_seq(a, b);
    let with_x = insert_ordered(b, x);
    lemma_insert_ordered_permutes(b, x);
    if a.len() == 0 {
    } else if b.len() == 0 {
        assert(with_x.drop_last() =~= b);
        if le(a.last(), x) {
        } else {
            lemma_insert_into_merge(a.drop_last(), b, x);
            assert(merge_seq(a.drop_last(), b) =~= a.drop_last());
        }
    } else if le(b.last(), x) {
        assert(with_x.drop_last() =~= b);
        if le(a.last(), x) {
            assert(merge_seq(a, with_x) == merged.push(x));
            assert(le(merged.last(), x));
        } else {
            lemma_insert_into_merge(a.drop_last(), b, x);
            if le(a.last(), b.last()) {
                lemma_le_transitive(a.last(), b.last(), x);
            }
            assert(merged.drop_last() =~= merge_seq(a.drop_last(), b));
        }
    } else {
        assert(with_x.drop_last() =~= insert_ordered(b.drop_last(), x));
        if le(a.last(), b.last()) {
            lemma_insert_into_merge(a, b.drop_last(), x);
            assert(merged.drop_last() =~= merge_seq(a, b.drop_last()));
        } else {
            lemma_insert_into_merge(a.drop_last(), b, x);
            if le(a.last(), x) {
                lemma_le_total(b.last(), x);
                lemma_le_transitive(a.last(), x, b.last());
            }
            assert(merged.drop_last() =~= merge_seq(a.drop_last(), b));
        }
    }
}

/// The sort of two sequences joined is the merge of their sorts.
proof fn lemma_sort_seq_joined<T: Ord>(a: Seq<T>, b: Seq<T>)
    requires
        total_order::<T>(),
    ensures
        sort_seq(a + b) == merge_seq(sort_seq(a), sort_seq(b)),
    decreases b.len(),
{
    if b.len() == 0 {
        assert(a + b =~= a);
        assert(merge_seq(sort_seq(a), sort_seq(b)) =~= sort_seq(a));
    } else {
        assert((a + b).drop_last() =~= a + b.drop_last());
        lemma_sort_seq_joined(a, b.drop_last());
        lemma_insert_into_merge(sort_seq(a), sort_seq(b.drop_last()), b.last());
    }
}

/// A sequence without items holds nothing.
proof fn lemma_nothing_in_empty<T>(s: Seq<T>)
    requires
        s.len() == 0,
    ensures
        s.to_multiset() == Multiset::<T>::empty(),
{
    to_multiset_len(s);
    lemma_multiset_empty_len(s.to_multiset());
}

/// An item at the end of a sequence may as well stand at the front of what
/// follows, here a sequence that is kept last item first.
proof fn lemma_end_to_front<T>(front: Seq<T>, item: T, behind: Seq<T>)
    ensures
        front.push(item) + behind.reverse() == front + behind.push(item).reverse(),
{
    assert(front.push(item) + behind.reverse() =~= front + behind.push(item).reverse());
}

/// Merges two vectors into one, from the back.
fn merge<T: Ord>(a: Vec<T>, b: Vec<T>) -> (out: Vec<T>)
    ensures
        out@.to_multiset() == a@.to_multiset().add(b@.to_multiset()),
        total_order::<T>() ==> out@ == merge_seq(a@, b@),
{
    let mut left = a;
    let mut right = b;
    // What has been taken off the two, the last item of the merge first.
    let mut taken: Vec<T> = Vec::new();
    proof {
        lemma_nothing_in_empty(taken@);
        assert(left@.to_multiset().add(right@.to_multiset()).add(taken@.to_multiset())
            =~= a@.to_multiset().add(b@.to_multiset()));
    }
    while left.len() > 0 && right.len() > 0
        invariant
            left@.to_multiset().add(right@.to_multiset()).add(taken@.to_multiset())
                == a@.to_multiset().add(b@.to_multiset()),
            total_order::<T>() ==> merge_seq(a@, b@) == merge_seq(left@, right@)
                + taken@.reverse(),
        decreases left.len() + right.len(),
    {
        let ghost before = (left@, right@, taken@);
        if is_le(&left[left.len() - 1], &right[right.len() - 1]) {
            let item = right.pop().unwrap();
            taken.push(item);
            proof {
                assert(right@.push(item) =~= before.1);
                to_multiset_build(right@, item);
                to_multiset_build(before.2, item);
                assert(left@.to_multiset().add(right@.to_multiset()).add(taken@.to_multiset())
                    =~= left@.to_multiset().add(before.1.to_multiset()).add(
                    before.2.to_multiset(),
                ));
                assert(right@ =~= before.1.drop_last());
                lemma_end_to_front(merge_seq(left@, right@), item, before.2);
            }
        } else {
            let item = left.pop().unwrap();
            taken.push(item);
            proof {
                assert(left@.push(item) =~= before.0);
                to_multiset_build(left@, item);
                to_multiset_build(before.2, item);
                assert(left@.to_multiset().add(right@.to_multiset()).add(taken@.to_multiset())
                    =~= before.0.to_multiset().add(right@.to_multiset()).add(
                    before.2.to_multiset(),
                ));
                assert(left@ =~= before.0.drop_last());
                lemma_end_to_front(merge_seq(left@, right@), item, before.2);
            }
        }
    }
    proof {
        if left@.len() == 0 {
            lemma_nothing_in_empty(left@);
            assert(left@.to_multiset().add(right@.to_multiset()) =~= right@.to_multiset());
        } else {
            lemma_nothing_in_empty(right@);
            assert(left@.to_multiset().add(right@.to_multiset()) =~= left@.to_multiset());
        }
    }
    // One of the two is used up: the other is the front of the merge.
    let mut out = if left.len() > 0 {
        left
    } else {
        right
    };
    while taken.len() > 0
        invariant
            out@.to_multiset().add(taken@.to_multiset()) == a@.to_multiset().add(
                b@.to_multiset(),
            ),
            total_order::<T>() ==> merge_seq(a@, b@) == out@ + taken@.reverse(),
        decreases taken.len(),
    {
        let ghost before = (out@, taken@);
        let item = taken.pop().unwrap();
        out.push(item);
        proof {
            assert(taken@.push(item) =~= before.1);
            to_multiset_build(taken@, item);
            to_multiset_build(before.0, item);
            assert(out@.to_multiset().add(taken@.to_multiset()) =~= before.0.to_multiset().add(
                before.1.to_multiset(),
            ));
            lemma_end_to_front(before.0, item, taken@);
        }
    }
    proof {
        lemma_nothing_in_empty(taken@);
        assert(out@ + taken@.reverse() =~= out@);
        assert(out@.to_multiset().add(taken@.to_multiset()) =~= out@.to_multiset());
    }
    out
}

/// Sorts a vector by its items' own order, keeping the order of items that the
/// order does not tell apart.
pub(crate) fn sort_vec<T: Ord>(items: Vec<T>) -> (out: Vec<T>)
    ensures
        out@.to_multiset() == items@.to_multiset(),
        total_order::<T>() ==> out@ == sort_seq(items@),
    decreases items.len(),
{
    let n: usize = items.len();
    if n < 2 {
        proof {
            if n == 1 {
                assert(sort_seq(items@.drop_last()) =~= Seq::<T>::empty());
                assert(Seq::<T>::empty().push(items@.last()) =~= items@);
            }
        }
        return items;
    }
    let mut left = items;
    let right = left.split_off(n / 2);
    let ghost halves = (left@, right@);
    proof {
        assert(halves.0 + halves.1 =~= items@);
        lemma_multiset_commutative(halves.0, halves.1);
    }
    let left = sort_vec(left);
    let right = sort_vec(right);
    proof {
        if total_order::<T>() {
            lemma_sort_seq_joined(halves.0, halves.1);
        }
    }
    merge(left, right)
}

} // verus!
