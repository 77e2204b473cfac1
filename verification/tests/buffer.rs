use mofurun::sorted_vec::{SortedVec, NOT_SORTED};
use mofurun::unsafe_vec::UnsafeVec;
use mofurun::unsorted_vec::UnsortedVec;
use std::cmp::Ordering;
use std::convert::TryFrom;

/// An item ordered by its key alone; the tag tells items of one key apart.
#[derive(Debug, Clone, Copy)]
struct Keyed {
    key: u32,
    tag: u32,
}

impl PartialEq for Keyed {
    fn eq(&self, other: &Self) -> bool {
        self.key == other.key
    }
}

impl Eq for Keyed {}

impl PartialOrd for Keyed {
    fn partial_cmp(&self, other: &Self) -> Option<Ordering> {
        Some(self.cmp(other))
    }
}

impl Ord for Keyed {
    fn cmp(&self, other: &Self) -> Ordering {
        self.key.cmp(&other.key)
    }
}

fn unsorted_of<T>(items: Vec<T>) -> UnsortedVec<T> {
    let mut buffer = UnsortedVec::new();
    for item in items {
        buffer = buffer.push(item);
    }
    buffer
}

/// A fixed sequence of numbers that looks shuffled.
fn scrambled(count: usize, seed: u64, modulus: u32) -> Vec<u32> {
    let mut state: u64 = seed;
    let mut out: Vec<u32> = Vec::new();
    for _ in 0..count {
        state = state
            .wrapping_mul(6364136223846793005)
            .wrapping_add(1442695040888963407);
        out.push(((state >> 33) as u32) % modulus);
    }
    out
}

#[test]
fn new_buffer_is_empty() {
    let buffer: UnsortedVec<i32> = UnsortedVec::new();
    assert_eq!(buffer.len(), 0);
    let none: &[i32] = &[];
    assert_eq!(buffer.as_ref(), none);
}

#[test]
fn default_buffers_are_empty() {
    let unsorted: UnsortedVec<i32> = UnsortedVec::default();
    assert_eq!(unsorted.len(), 0);
    let sorted: SortedVec<i32> = SortedVec::default();
    assert_eq!(sorted.len(), 0);
    assert_eq!(sorted.into_iter().next(), None);
}

#[test]
fn length_after_pushes_is_their_number() {
    for count in [0usize, 1, 2, 5, 64, 1000] {
        let mut buffer: UnsortedVec<usize> = UnsortedVec::new();
        for item in 0..count {
            buffer = buffer.push(item);
        }
        assert_eq!(buffer.len(), count);
    }
}

#[test]
fn push_appends_at_the_end() {
    let buffer = UnsortedVec::new().push(7).push(3).push(7).push(-1);
    assert_eq!(buffer.as_ref(), &[7, 3, 7, -1]);
}

#[test]
fn sort_orders_the_items() {
    let sorted = unsorted_of(vec![5, 4, 3, 2, 1, 0]).sort();
    assert_eq!(sorted.as_ref(), &[0, 1, 2, 3, 4, 5]);
    assert_eq!(sorted.len(), 6);
}

#[test]
fn sort_of_nothing_and_of_one() {
    let nothing: UnsortedVec<u8> = UnsortedVec::new();
    let none: &[u8] = &[];
    assert_eq!(nothing.sort().as_ref(), none);
    assert_eq!(UnsortedVec::new().push(9u8).sort().as_ref(), &[9u8]);
}

#[test]
fn sort_keeps_every_item() {
    let sorted = unsorted_of(vec![3, 1, 3, 2, 1, 3, 0, 0]).sort();
    assert_eq!(sorted.as_ref(), &[0, 0, 1, 1, 2, 3, 3, 3]);
}

#[test]
fn sort_handles_the_ends_of_the_range() {
    let sorted = unsorted_of(vec![i64::MAX, 0, i64::MIN, -1, 1]).sort();
    assert_eq!(sorted.as_ref(), &[i64::MIN, -1, 0, 1, i64::MAX]);
}

#[test]
fn sorted_view_is_non_decreasing() {
    for seed in 0..20u64 {
        let items = scrambled(257, seed, 50);
        let sorted = unsorted_of(items).sort();
        let view = sorted.as_ref();
        assert_eq!(view.len(), 257);
        for k in 1..view.len() {
            assert!(view[k - 1] <= view[k]);
        }
    }
}

#[test]
fn sorting_twice_gives_the_same() {
    for seed in 0..10u64 {
        let items = scrambled(100, seed, 1000);
        let once = unsorted_of(items).sort();
        let first: Vec<u32> = once.as_ref().to_vec();
        let again = UnsortedVec::from(once).sort();
        assert_eq!(again.as_ref(), first.as_slice());
        let third = again.sort();
        assert_eq!(third.as_ref(), first.as_slice());
    }
}

#[test]
fn sort_agrees_with_the_standard_stable_sort() {
    for seed in 0..40u64 {
        let count = (seed as usize) * 7 % 130;
        let keys = scrambled(count, seed, 8);
        let mut items: Vec<Keyed> = Vec::new();
        for (place, key) in keys.iter().enumerate() {
            items.push(Keyed {
                key: *key,
                tag: place as u32,
            });
        }
        let mut expected = items.clone();
        expected.sort();
        let sorted = unsorted_of(items).sort();
        let got = sorted.as_ref();
        assert_eq!(got.len(), expected.len());
        for k in 0..got.len() {
            assert_eq!(got[k].key, expected[k].key);
            assert_eq!(got[k].tag, expected[k].tag);
        }
    }
}

#[test]
fn sort_keeps_the_order_of_equal_items() {
    let items = vec![
        Keyed { key: 2, tag: 0 },
        Keyed { key: 1, tag: 1 },
        Keyed { key: 2, tag: 2 },
        Keyed { key: 1, tag: 3 },
        Keyed { key: 0, tag: 4 },
        Keyed { key: 2, tag: 5 },
    ];
    let sorted = unsorted_of(items).sort();
    let tags: Vec<u32> = sorted.as_ref().iter().map(|item| item.tag).collect();
    assert_eq!(tags, vec![4, 1, 3, 0, 2, 5]);
}

#[test]
fn push_onto_sorted_gives_an_unsorted_buffer() {
    let sorted = unsorted_of(vec![1, 2, 3]).sort();
    // Still in order, and unsorted by its type all the same.
    let grown: UnsortedVec<i32> = sorted.push(4);
    assert_eq!(grown.as_ref(), &[1, 2, 3, 4]);
    let sorted = grown.sort();
    let out_of_order: UnsortedVec<i32> = sorted.push(0);
    assert_eq!(out_of_order.as_ref(), &[1, 2, 3, 4, 0]);
    assert_eq!(out_of_order.len(), 5);
}

#[test]
fn sorted_buffer_relabelled_keeps_its_items() {
    let sorted = unsorted_of(vec![2, 1, 3]).sort();
    let unsorted = UnsortedVec::from(sorted);
    assert_eq!(unsorted.as_ref(), &[1, 2, 3]);
}

#[test]
fn try_from_takes_a_sorted_vector() {
    let sorted: SortedVec<i32> = SortedVec::try_from(vec![1, 2, 3, 4, 5, 6]).unwrap();
    assert_eq!(sorted.as_ref(), &[1, 2, 3, 4, 5, 6]);
    let with_equals = SortedVec::try_from(vec![1, 1, 2, 2, 2, 9]).unwrap();
    assert_eq!(with_equals.as_ref(), &[1, 1, 2, 2, 2, 9]);
}

#[test]
fn try_from_takes_the_empty_and_the_single() {
    let nothing: Vec<i32> = Vec::new();
    assert_eq!(SortedVec::try_from(nothing).unwrap().len(), 0);
    assert_eq!(SortedVec::try_from(vec![7]).unwrap().as_ref(), &[7]);
}

#[test]
fn try_from_refuses_what_is_not_sorted() {
    let refused = SortedVec::try_from(vec![3, 1, 2]);
    assert_eq!(refused.err(), Some(NOT_SORTED));
    assert_eq!(
        NOT_SORTED,
        "attempting to perform a conversion from a non-sorted `Vec` to `SortedVector`."
    );
}

#[test]
fn try_from_refuses_a_late_descent() {
    assert!(SortedVec::try_from(vec![1, 2, 3, 4, 3]).is_err());
    assert!(SortedVec::try_from(vec![2, 1]).is_err());
    assert!(SortedVec::try_from(vec![1, 3, 2, 4]).is_err());
}

#[test]
fn buffers_compare_by_their_items() {
    let a = UnsortedVec::new().push(1).push(2);
    let b = UnsortedVec::new().push(1).push(2);
    let c = UnsortedVec::new().push(2).push(1);
    let d = UnsortedVec::new().push(1);
    assert!(a == b);
    assert!(!(a != b));
    assert!(a != c);
    assert!(!(a == c));
    assert!(a != d);
    assert!(unsorted_of(vec![2, 1]).sort() == unsorted_of(vec![1, 2]).sort());
    assert!(unsorted_of(vec![2, 1]).sort() != unsorted_of(vec![1, 3]).sort());
}

#[test]
fn unsafe_vec_takes_either_buffer() {
    let from_unsorted = UnsafeVec::from(unsorted_of(vec![3, 1, 2]));
    assert_eq!(from_unsorted.vec, vec![3, 1, 2]);
    let from_sorted = UnsafeVec::from(unsorted_of(vec![3, 1, 2]).sort());
    assert_eq!(from_sorted.vec, vec![1, 2, 3]);
    let drained: Vec<i32> = from_sorted.into_iter().collect();
    assert_eq!(drained, vec![1, 2, 3]);
    let nothing: UnsafeVec<i32> = UnsafeVec::default();
    assert!(nothing.vec.is_empty());
}

#[test]
fn buffers_of_one_length_as_the_vector() {
    enum Ty {
        One,
    }
    fn create_vec() -> UnsortedVec<Ty> {
        UnsortedVec::new()
            .push(Ty::One)
            .push(Ty::One)
            .push(Ty::One)
            .push(Ty::One)
            .push(Ty::One)
    }
    let vec = vec![Ty::One, Ty::One, Ty::One, Ty::One, Ty::One];
    assert_eq!(create_vec().len(), vec.len());
    assert_eq!(
        create_vec().into_iter().fold(0, |acc, _| acc + 1),
        vec.into_iter().fold(0, |acc, _| acc + 1)
    );
    assert_eq!(
        create_vec().into_iter().count(),
        create_vec().into_iter().fold(0, |acc, _| acc + 1)
    );
}
