//! What it is to drain a queue of pending items from the front.
//!
//! Both iterators of this crate keep their pending items in a `VecDeque` and
//! hand them out front first; their contracts are stated over the functions
//! below.

use std::collections::VecDeque;
use vstd::prelude::*;

verus! {

/// What the next call of `next` hands out when `p` is pending: the first item,
/// or nothing where nothing is pending.
pub open spec fn next_item<T>(p: Seq<T>) -> Option<T> {
    if p.len() > 0 {
        Some(p[0])
    } else {
        None
    }
}

/// What is pending after that call: all but the first item.
pub open spec fn next_pending<T>(p: Seq<T>) -> Seq<T> {
    if p.len() > 0 {
        p.drop_first()
    } else {
        p
    }
}

/// What is pending after `k` calls of `next`.
pub open spec fn pending_after<T>(p: Seq<T>, k: nat) -> Seq<T>
    decreases k,
{
    if k == 0 {
        p
    } else {
        next_pending(pending_after(p, (k - 1) as nat))
    }
}

/// The last of the pending items, or nothing where nothing is pending.
pub open spec fn last_item<T>(p: Seq<T>) -> Option<T> {
    if p.len() > 0 {
        Some(p.last())
    } else {
        None
    }
}

/// Draining hands out the pending items in their order, each once: call
/// number `k`, counted from 0, hands out item `k`, and every call after the
/// last item hands out nothing and leaves nothing pending.
pub proof fn lemma_drain_in_order<T>(p: Seq<T>, k: nat)
    ensures
        pending_after(p, k) == (if k <= p.len() {
            p.skip(k as int)
        } else {
            Seq::<T>::empty()
        }),
        next_item(pending_after(p, k)) == (if k < p.len() {
            Some(p[k as int])
        } else {
            None
        }),
    decreases k,
{
    if k == 0 {
        assert(p.skip(0) =~= p);
    } else {
        lemma_drain_in_order(p, (k - 1) as nat);
        if k <= p.len() {
            assert(p.skip(k - 1).drop_first() =~= p.skip(k as int));
        } else {
            assert(p.skip(p.len() as int) =~= Seq::<T>::empty());
        }
    }
}

/// The queue of a vector's items: it holds them in the vector's order, the
/// first item at the front. Each item is moved over once, the last one first.
pub(crate) fn queue_of<T>(items: Vec<T>) -> (queue: VecDeque<T>)
    ensures
        queue@ == items@,
{
    let mut rest = items;
    let mut queue: VecDeque<T> = VecDeque::with_capacity(rest.len());
    while rest.len() > 0
        invariant
            rest@ + queue@ == items@,
        decreases rest.len(),
    {
        let ghost before = (rest@, queue@);
        let item = rest.pop().unwrap();
        queue.push_front(item);
        proof {
            assert(rest@ + queue@ =~= before.0 + before.1);
        }
    }
    proof {
        assert(rest@ + queue@ =~= queue@);
    }
    queue
}

} // verus!
