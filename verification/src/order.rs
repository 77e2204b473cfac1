//! The order of the elements, as the buffers see it.
//!
//! Everything that is said about sortedness in this crate is said over the
//! three definitions below: [`total_order`], [`le`] and [`is_sorted`].

use core::cmp::Ordering;
use vstd::laws_cmp::obeys_cmp;
use vstd::laws_cmp::obeys_cmp_ord;
use vstd::laws_cmp::obeys_cmp_partial_ord;
use vstd::laws_cmp::obeys_partial_cmp_spec_properties;
use vstd::laws_eq::obeys_eq_spec_properties;
use vstd::prelude::*;
use vstd::std_specs::cmp::OrdSpec;
use vstd::std_specs::cmp::PartialEqSpec;
use vstd::std_specs::cmp::PartialOrdSpec;

verus! {

/// `T`'s `Ord` is a total order: reflexive, transitive and total, in step with
/// `T`'s `==`, and the executable comparison computes it.
///
/// The integer types have it (see `vstd::laws_cmp::group_laws_cmp`).
pub open spec fn total_order<T: Ord>() -> bool {
    obeys_cmp::<T>()
}

/// `a` does not come after `b` in `T`'s order.
pub open spec fn le<T: Ord>(a: T, b: T) -> bool {
    a.cmp_spec(&b) != Ordering::Greater
}

/// `s` is in non-decreasing order: no item comes after a later one.
pub open spec fn is_sorted<T: Ord>(s: Seq<T>) -> bool {
    forall|i: int, j: int| 0 <= i < j < s.len() ==> le(#[trigger] s[i], #[trigger] s[j])
}

/// Every item is `le` itself.
pub proof fn lemma_le_reflexive<T: Ord>(a: T)
    requires
        total_order::<T>(),
    ensures
        le(a, a),
{
    reveal(obeys_cmp_ord);
    reveal(obeys_partial_cmp_spec_properties);
    assert(a.partial_cmp_spec(&a) == Some(a.cmp_spec(&a)));
}

/// Of two items, one is `le` the other.
pub proof fn lemma_le_total<T: Ord>(a: T, b: T)
    requires
        total_order::<T>(),
    ensures
        le(a, b) || le(b, a),
{
    reveal(obeys_cmp_ord);
    reveal(obeys_partial_cmp_spec_properties);
    assert(a.partial_cmp_spec(&b) == Some(a.cmp_spec(&b)));
    assert(b.partial_cmp_spec(&a) == Some(b.cmp_spec(&a)));
}

/// `le` is transitive.
pub proof fn lemma_le_transitive<T: Ord>(a: T, b: T, c: T)
    requires
        total_order::<T>(),
        le(a, b),
        le(b, c),
    ensures
        le(a, c),
{
    reveal(obeys_cmp_ord);
    reveal(obeys_cmp_partial_ord);
    reveal(obeys_partial_cmp_spec_properties);
    reveal(obeys_eq_spec_properties);
    assert(a.partial_cmp_spec(&b) == Some(a.cmp_spec(&b)));
    assert(b.partial_cmp_spec(&a) == Some(b.cmp_spec(&a)));
    assert(b.partial_cmp_spec(&c) == Some(b.cmp_spec(&c)));
    assert(c.partial_cmp_spec(&b) == Some(c.cmp_spec(&b)));
    assert(a.partial_cmp_spec(&c) == Some(a.cmp_spec(&c)));
    assert(c.partial_cmp_spec(&a) == Some(c.cmp_spec(&a)));
    if a.cmp_spec(&c) == Ordering::Greater {
        // Then `c` is strictly before `a`; each way `a` and `b`, `b` and `c`
        // can stand to each other contradicts it.
        assert(c.cmp_spec(&a) == Ordering::Less);
        if a.cmp_spec(&b) == Ordering::Less {
            assert(c.cmp_spec(&b) == Ordering::Less);
            assert(b.cmp_spec(&c) == Ordering::Greater);
        } else {
            assert(a.eq_spec(&b));
            assert(b.eq_spec(&a));
            if b.cmp_spec(&c) == Ordering::Less {
                assert(b.cmp_spec(&a) == Ordering::Less);
            } else {
                assert(b.eq_spec(&c));
                assert(a.eq_spec(&c));
            }
        }
    }
}

/// In a sorted sequence no item comes after an item at the same or a later place.
pub proof fn lemma_sorted_pair<T: Ord>(s: Seq<T>, i: int, j: int)
    requires
        total_order::<T>(),
        is_sorted(s),
        0 <= i <= j < s.len(),
    ensures
        le(s[i], s[j]),
{
    if i == j {
        lemma_le_reflexive(s[i]);
    }
}

/// A sequence in which no item comes after its successor is sorted.
pub proof fn lemma_sorted_by_neighbours<T: Ord>(s: Seq<T>)
    requires
        total_order::<T>(),
        forall|k: int| 0 < k < s.len() ==> le(s[k - 1], #[trigger] s[k]),
    ensures
        is_sorted(s),
    decreases s.len(),
{
    if s.len() > 1 {
        let front = s.drop_last();
        assert forall|k: int| 0 < k < front.len() implies le(front[k - 1], #[trigger] front[k]) by {
            assert(le(s[k - 1], s[k]));
        }
        lemma_sorted_by_neighbours(front);
        assert forall|i: int, j: int| 0 <= i < j < s.len() implies le(
            #[trigger] s[i],
            #[trigger] s[j],
        ) by {
            if j < s.len() - 1 {
                assert(le(front[i], front[j]));
            } else {
                assert(le(s[j - 1], s[j]));
                if i < j - 1 {
                    assert(le(front[i], front[j - 1]));
                    lemma_le_transitive(s[i], s[j - 1], s[j]);
                }
            }
        }
    }
}

/// Whether `a` does not come after `b`, by `T`'s own comparison.
pub(crate) fn is_le<T: Ord>(a: &T, b: &T) -> (r: bool)
    ensures
        total_order::<T>() ==> r == le(*a, *b),
{
    proof {
        reveal(obeys_cmp_ord);
    }
    match a.cmp(b) {
        Ordering::Greater => false,
        _ => true,
    }
}

} // verus!
