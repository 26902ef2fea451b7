use std::collections::BTreeSet;

use dbuf::ordbag::{IntoIter, Iter, OrdBag, SetIter};

fn bag_isize(entries: &[isize]) -> OrdBag<isize> {
    let mut bag = OrdBag::new();
    for x in entries {
        bag.insert(*x);
    }
    bag
}

fn bag_usize(entries: &[usize]) -> OrdBag<usize> {
    let mut bag = OrdBag::new();
    for x in entries {
        bag.insert(*x);
    }
    bag
}

#[test]
fn test_difference_size_hint() {
    let bag: OrdBag<isize> = bag_isize(&[3, 2, 1]);
    let empty_bag = OrdBag::new();
    let mut difference = bag.difference(&empty_bag);

    // Since the difference has the same number of entries as the bag, we
    // can predict how the size_hint() will behave, because the iteration
    // order does not matter
    assert_eq!(difference.size_hint(), (0, Some(3)));
    difference.next().unwrap();
    assert_eq!(difference.size_hint(), (0, Some(2)));
    difference.next().unwrap();
    assert_eq!(difference.size_hint(), (0, Some(1)));
    difference.next().unwrap();
    assert_eq!(difference.size_hint(), (0, Some(0)));
    assert_eq!(difference.next(), None);
    assert_eq!(difference.size_hint(), (0, Some(0)));
}

#[test]
fn test_difference_from_empty() {
    do_test_difference(&[], &[], &[]);
    do_test_difference(&[], &[1], &[]);
    do_test_difference(&[], &[1, 1], &[]);
    do_test_difference(&[], &[1, 1, 2], &[]);
}

#[test]
fn test_difference_from_one() {
    do_test_difference(&[1], &[], &[1]);
    do_test_difference(&[1], &[1], &[]);
    do_test_difference(&[1], &[1, 1], &[]);
    do_test_difference(&[1], &[2], &[1]);
    do_test_difference(&[1], &[1, 2], &[]);
    do_test_difference(&[1], &[2, 2], &[1]);
}

#[test]
fn test_difference_from_duplicate_ones() {
    do_test_difference(&[1, 1], &[], &[1, 1]);
    do_test_difference(&[1, 1], &[1], &[1]);
    do_test_difference(&[1, 1], &[1, 1], &[]);
    do_test_difference(&[1, 1], &[2], &[1, 1]);
    do_test_difference(&[1, 1], &[1, 2], &[1]);
    do_test_difference(&[1, 1], &[2, 2], &[1, 1]);
}

#[test]
fn test_difference_from_one_one_two() {
    do_test_difference(&[1, 1, 2], &[], &[1, 1, 2]);
    do_test_difference(&[1, 1, 2], &[1], &[1, 2]);
    do_test_difference(&[1, 1, 2], &[1, 1], &[2]);
    do_test_difference(&[1, 1, 2], &[2], &[1, 1]);
    do_test_difference(&[1, 1, 2], &[1, 2], &[1]);
    do_test_difference(&[1, 1, 2], &[2, 2], &[1, 1]);
}

#[test]
fn test_difference_from_larger_bags() {
    do_test_difference(&[1, 2, 2, 3], &[3], &[1, 2, 2]);
    do_test_difference(&[1, 2, 2, 3], &[4], &[1, 2, 2, 3]);
    do_test_difference(&[2, 2, 2, 2], &[2, 2], &[2, 2]);
    do_test_difference(&[2, 2, 2, 2], &[], &[2, 2, 2, 2]);
}

fn do_test_difference(
    self_entries: &[isize],
    other_entries: &[isize],
    expected_entries: &[isize],
) {
    let this = bag_isize(self_entries);
    let other = bag_isize(other_entries);
    let expected = bag_isize(expected_entries);
    let mut actual = OrdBag::new();
    let mut difference = this.difference(&other);
    while let Some((t, n)) = difference.next() {
        actual.insert_many(*t, n);
    }

    assert_eq!(actual, expected);
}

#[test]
fn test_outer_join_with_empty_self() {
    do_test_outer_join(&[], &[1, 2, 2, 3], &[(1, 0, 1), (2, 0, 2), (3, 0, 1)]);
}

#[test]
fn test_outer_join_with_empty_other() {
    do_test_outer_join(&[1, 2, 2, 3], &[], &[(1, 1, 0), (2, 2, 0), (3, 1, 0)]);
}

#[test]
fn test_outer_join_with_overlap() {
    do_test_outer_join(
        &[1, 2, 2, 3, 3],
        &[3, 4, 5, 5],
        &[(1, 1, 0), (2, 2, 0), (3, 2, 1), (4, 0, 1), (5, 0, 2)],
    );
}

fn do_test_outer_join(
    this: &[usize],
    other: &[usize],
    expected_entries: &[(usize, usize, usize)],
) {
    let this_bag = bag_usize(this);
    let other_bag = bag_usize(other);
    let expected: BTreeSet<(usize, usize, usize)> = expected_entries.iter().cloned().collect();
    let mut actual: BTreeSet<(usize, usize, usize)> = BTreeSet::new();
    let mut join = this_bag.outer_join(&other_bag);
    while let Some((k, a, b)) = join.next() {
        actual.insert((*k, a, b));
    }
    assert_eq!(expected, actual);
}

#[test]
fn test_not_in_with_empty_self() {
    do_test_not_in(&[], &[1, 2, 3, 3], &[]);
}

#[test]
fn test_not_in_with_empty_other() {
    do_test_not_in(&[1, 2, 3, 3], &[], &[1, 2, 3, 3]);
}

#[test]
fn test_not_in_with_overlap() {
    do_test_not_in(&[1, 2, 3, 3], &[2, 4], &[1, 3, 3]);
}

fn do_test_not_in(this: &[usize], other: &[usize], expected_entries: &[usize]) {
    let this_bag = bag_usize(this);
    let other_bag = bag_usize(other);
    let expected = bag_usize(expected_entries);
    let mut actual: OrdBag<usize> = OrdBag::new();
    let mut not_in = this_bag.not_in(&other_bag);
    while let Some((k, count)) = not_in.next() {
        actual.insert_many(*k, count);
    }
    assert_eq!(expected, actual);
}

#[test]
fn test_signed_difference_with_empty_self() {
    do_test_signed_difference(&[], &[1, 2, 2, 3], &[(1, -1), (2, -2), (3, -1)]);
}

#[test]
fn test_signed_difference_with_empty_other() {
    do_test_signed_difference(&[1, 2, 2, 3], &[], &[(1, 1), (2, 2), (3, 1)]);
}

#[test]
fn test_signed_difference_with_overlap() {
    do_test_signed_difference(
        &[1, 2, 2, 3, 3],
        &[3, 4, 5, 5],
        &[(1, 1), (2, 2), (3, 1), (4, -1), (5, -2)],
    );
}

fn do_test_signed_difference(
    this: &[usize],
    other: &[usize],
    expected_entries: &[(usize, isize)],
) {
    let this_bag = bag_usize(this);
    let other_bag = bag_usize(other);
    let expected: BTreeSet<(usize, isize)> = expected_entries.iter().cloned().collect();
    let mut actual: BTreeSet<(usize, isize)> = BTreeSet::new();
    let mut signed = this_bag.signed_difference(&other_bag);
    while let Some((k, d)) = signed.next() {
        actual.insert((*k, d));
    }
    assert_eq!(expected, actual);
}

#[test]
fn bag_insert_remove_counts() {
    let mut bag: OrdBag<isize> = OrdBag::new();
    assert_eq!(bag.len(), 0);
    assert!(bag.is_empty());
    assert_eq!(bag.insert(2), 0);
    assert_eq!(bag.insert(2), 1);
    assert_eq!(bag.insert(2), 2);
    assert_eq!(bag.set_len(), 1);
    assert_eq!(bag.len(), 3);
    assert_eq!(bag.contains(&2), 3);
    assert_eq!(bag.contains(&4), 0);
    assert_eq!(bag.remove(&2), 3);
    assert_eq!(bag.contains(&2), 2);
    assert_eq!(bag.remove(&2), 2);
    assert_eq!(bag.remove(&2), 1);
    assert_eq!(bag.remove(&2), 0);
    assert!(bag.is_empty());
}

#[test]
fn bag_insert_many_and_get() {
    let mut bag: OrdBag<isize> = OrdBag::new();
    assert_eq!(bag.insert_many(2, 1), 0);
    assert_eq!(bag.insert_many(2, 2), 1);
    assert_eq!(bag.insert_many(2, 4), 3);
    assert_eq!(bag.set_len(), 1);
    assert_eq!(bag.len(), 7);
    assert_eq!(bag.get(&2), Some((&2, 7)));
    assert_eq!(bag.get(&3), None);
}

#[test]
fn bag_replace_take() {
    let mut bag: OrdBag<isize> = bag_isize(&[1, 2, 3, 3]);
    assert_eq!(bag.try_take(&2), Ok(2));
    assert_eq!(bag.try_take(&3), Err(Some((&3, 2))));
    assert_eq!(bag.try_take(&3), Ok(3));
    assert_eq!(bag.try_take(&4), Err(None));
    let mut bag: OrdBag<isize> = bag_isize(&[1, 2, 3, 3]);
    assert_eq!(bag.take_all(&2), Some((2, 1)));
    assert_eq!(bag.take_all(&3), Some((3, 2)));
    assert_eq!(bag.take_all(&2), None);
    assert_eq!(bag.take_all(&3), None);
    let mut bag: OrdBag<isize> = bag_isize(&[7, 7]);
    assert_eq!(bag.replace(7), 2);
    assert_eq!(bag.contains(&7), 1);
    assert_eq!(bag.replace(9), 0);
    assert_eq!(bag.contains(&9), 1);
    assert_eq!(bag.len(), 2);
}

#[test]
fn bag_iterators() {
    let bag: OrdBag<isize> = bag_isize(&[5, 5, 9]);
    let mut iter = bag.iter();
    assert_eq!(iter.size_hint(), (3, Some(3)));
    assert_eq!(iter.next(), Some(&5));
    assert_eq!(iter.next(), Some(&5));
    assert_eq!(iter.next(), Some(&9));
    assert_eq!(iter.next(), None);
    let mut set_iter = bag.set_iter();
    assert_eq!(set_iter.size_hint(), (2, Some(2)));
    assert_eq!(set_iter.next(), Some((&5, 2)));
    assert_eq!(set_iter.next(), Some((&9, 1)));
    assert_eq!(set_iter.next(), None);
    let mut into_iter = bag.clone().into_iter();
    assert_eq!(into_iter.size_hint(), (2, Some(2)));
    assert_eq!(into_iter.next(), Some((5, 2)));
    assert_eq!(into_iter.next(), Some((9, 1)));
    assert_eq!(into_iter.next(), None);
    let mut cleared = bag.clone();
    cleared.clear();
    assert!(cleared.is_empty());
    assert_eq!(cleared.set_len(), 0);
}

#[test]
fn bag_retain() {
    let xs: [i32; 15] = [0, 0, 0, 0, 0, 1, 1, 1, 1, 2, 2, 2, 3, 3, 4];
    let mut bag: OrdBag<i32> = OrdBag::new();
    for x in xs.iter() {
        bag.insert(*x);
    }
    bag.retain(|k: &i32, _n: usize| *k as usize);
    assert_eq!(bag.set_len(), 4);
    assert_eq!(bag.len(), 6);
    assert_eq!(bag.contains(&0), 0);
    assert_eq!(bag.contains(&1), 1);
    assert_eq!(bag.contains(&2), 2);
    assert_eq!(bag.contains(&3), 2);
    assert_eq!(bag.contains(&4), 1);
}

#[test]
fn test_outer_join_order_with_disjoint_sets() {
    do_test_outer_join_order(&[1, 2, 3], &[4, 5, 6]);
    do_test_outer_join_order(&[1, 2, 2, 3], &[4, 4, 5, 6]);
}

#[test]
fn test_outer_join_order_with_overlap() {
    do_test_outer_join_order(&[1, 2, 3], &[2, 3, 4]);
    do_test_outer_join_order(&[1, 1, 2, 3], &[2, 3, 3, 3, 4]);
}

fn do_test_outer_join_order(this: &[usize], other: &[usize]) {
    let this_bag = bag_usize(this);
    let other_bag = bag_usize(other);

    // The first yielded key that is exclusive to the other bag (its count
    // here is zero) must come after all of this bag's keys.
    let mut join = this_bag.outer_join(&other_bag);
    let mut idx: usize = 0;
    let mut min_other_exclusive_key_idx: Option<usize> = None;
    while let Some((_, self_count, _)) = join.next() {
        if self_count == 0 && min_other_exclusive_key_idx.is_none() {
            min_other_exclusive_key_idx = Some(idx);
        }
        idx += 1;
    }
    // If no such element exists, every key of the other bag is also here
    // and there is nothing to check.
    if let Some(first) = min_other_exclusive_key_idx {
        assert_eq!(first, this_bag.set_len());
    }
}


fn iter_count(mut it: Iter<isize>) -> usize {
    let mut n: usize = 0;
    while it.next().is_some() {
        n += 1;
    }
    n
}

fn set_iter_count(mut it: SetIter<isize>) -> usize {
    let mut n: usize = 0;
    while it.next().is_some() {
        n += 1;
    }
    n
}

fn into_iter_count(mut it: IntoIter<isize>) -> usize {
    let mut n: usize = 0;
    while it.next().is_some() {
        n += 1;
    }
    n
}

#[test]
fn format_all_the_things() {
    let vikings: OrdBag<isize> = bag_isize(&[1, 2, 3]);
    println!("{:?}", vikings);
    println!("{:?}", vikings.iter());
    println!("{:?}", vikings.set_iter());
    println!("{:?}", vikings.clone().into_iter());
}

#[test]
fn sane_iterators() {
    let vikings: OrdBag<isize> = bag_isize(&[1, 1, 3]);
    assert_eq!(iter_count(vikings.iter()), 3);
    assert_eq!(vikings.iter().size_hint(), (3, Some(3)));
    assert_eq!(iter_count(vikings.iter().clone()), 3);
    assert_eq!(set_iter_count(vikings.set_iter()), 2);
    assert_eq!(set_iter_count(vikings.set_iter().clone()), 2);
    assert_eq!(vikings.set_iter().size_hint(), (2, Some(2)));
    let ii = vikings.clone().into_iter();
    assert_eq!(ii.size_hint(), (2, Some(2)));
    assert_eq!(into_iter_count(ii), 2);
}
