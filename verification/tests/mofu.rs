use mofurun::Mofu;

fn items_of<T>(mofu: Mofu<T>) -> Vec<T> {
    match mofu {
        Mofu::Normal(items) => items,
        Mofu::Unsafe(items) => items,
        Mofu::Sorted(items) => items,
    }
}

#[test]
fn mofu_default_is_normal_and_empty() {
    let mofu: Mofu<i32> = Mofu::default();
    assert!(matches!(&mofu, Mofu::Normal(items) if items.is_empty()));
}

#[test]
fn mofu_push_keeps_normal_and_unsafe() {
    let normal = Mofu::Normal(vec![1]).push(2);
    assert!(matches!(&normal, Mofu::Normal(_)));
    assert_eq!(items_of(normal), vec![1, 2]);
    let not_safe = Mofu::Unsafe(vec![1]).push(2);
    assert!(matches!(&not_safe, Mofu::Unsafe(_)));
    assert_eq!(items_of(not_safe), vec![1, 2]);
}

#[test]
fn mofu_push_onto_sorted_is_normal() {
    // The items are still in order; the mark goes all the same.
    let grown = Mofu::Sorted(vec![1, 2]).push(3);
    assert!(matches!(&grown, Mofu::Normal(_)));
    assert_eq!(items_of(grown), vec![1, 2, 3]);
    let out_of_order = Mofu::Sorted(vec![1, 2]).push(0);
    assert!(matches!(&out_of_order, Mofu::Normal(_)));
    assert_eq!(items_of(out_of_order), vec![1, 2, 0]);
}

#[test]
fn mofu_sort_orders_and_marks() {
    let sorted = Mofu::default()
        .push(5)
        .push(4)
        .push(3)
        .push(2)
        .push(1)
        .push(0)
        .sort();
    assert!(matches!(&sorted, Mofu::Sorted(_)));
    assert_eq!(items_of(sorted), vec![0, 1, 2, 3, 4, 5]);
    let from_unsafe = Mofu::Unsafe(vec![2, 3, 1]).sort();
    assert!(matches!(&from_unsafe, Mofu::Sorted(_)));
    assert_eq!(items_of(from_unsafe), vec![1, 2, 3]);
}

#[test]
fn mofu_sort_twice_gives_the_same() {
    let once = Mofu::Normal(vec![2, 3, 1, 2]).sort();
    let twice = once.sort();
    assert!(matches!(&twice, Mofu::Sorted(_)));
    assert_eq!(items_of(twice), vec![1, 2, 2, 3]);
}

#[test]
fn mofu_sort_leaves_what_is_marked_sorted() {
    let marked = Mofu::Sorted(vec![3, 1, 2]).sort();
    assert!(matches!(&marked, Mofu::Sorted(_)));
    assert_eq!(items_of(marked), vec![3, 1, 2]);
}

#[test]
fn mofu_guarantee_safe_lifts_unsafe_only() {
    let lifted = Mofu::Unsafe(vec![2, 1]).guarantee_safe();
    assert!(matches!(&lifted, Mofu::Normal(_)));
    assert_eq!(items_of(lifted), vec![2, 1]);
    let normal = Mofu::Normal(vec![2, 1]).guarantee_safe();
    assert!(matches!(&normal, Mofu::Normal(_)));
    assert_eq!(items_of(normal), vec![2, 1]);
    let sorted = Mofu::Sorted(vec![1, 2]).guarantee_safe();
    assert!(matches!(&sorted, Mofu::Sorted(_)));
    assert_eq!(items_of(sorted), vec![1, 2]);
}
