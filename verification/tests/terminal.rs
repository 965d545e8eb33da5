use core::cmp::Ordering;
use internal_iterator::{max_by, min_by, Comparator, InternalIterator, IteratorExt, Natural};

/// Orders pairs by their first component alone.
struct ByFirst;

impl Comparator<(i32, char)> for ByFirst {
    fn decides(&self, _: (i32, char), _: (i32, char)) -> bool {
        true
    }

    fn order(&self, x: (i32, char), y: (i32, char)) -> Ordering {
        x.0.cmp(&y.0)
    }

    fn compare(&mut self, x: &(i32, char), y: &(i32, char)) -> Ordering {
        x.0.cmp(&y.0)
    }
}

#[test]
fn all_and_any() {
    assert!(vec![1, 2, 3].all(|x: i32| x > 0));
    assert!(!vec![1, 2, 3].all(|x: i32| x < 2));
    assert!(vec![1, 2, 3].any(|x: i32| x == 2));
    assert!(!vec![1, 2, 3].any(|x: i32| x > 5));
    assert!(Vec::<i32>::new().all(|x: i32| x > 0));
    assert!(!Vec::<i32>::new().any(|x: i32| x > 0));
}

#[test]
fn all_and_any_stop_early() {
    let mut calls = 0;
    assert!(!vec![1, 2, 3, 4].all(|x: i32| {
        calls += 1;
        x < 2
    }));
    assert_eq!(calls, 2);

    let mut calls = 0;
    assert!(vec![1, 2, 3, 4].any(|x: i32| {
        calls += 1;
        x == 3
    }));
    assert_eq!(calls, 3);
}

#[test]
fn count_counts() {
    assert_eq!(vec![1, 2, 3].count(), 3);
    assert_eq!(Vec::<i32>::new().count(), 0);
}

#[test]
fn find_and_find_map() {
    assert_eq!(vec![1, 2, 3].find(|x: &i32| *x == 2), Some(2));
    assert_eq!(vec![1, 2, 3].find(|x: &i32| *x == 5), None);
    assert_eq!(vec![(1, 'a'), (2, 'b'), (2, 'c')].find(|x: &(i32, char)| x.0 == 2), Some((2, 'b')));
    let parsed = vec!["lol", "two", "NaN", "4", "5"].find_map(|x: &str| x.parse::<i32>().ok());
    assert_eq!(parsed, Some(4));
    assert_eq!(vec!["lol"].find_map(|x: &str| x.parse::<i32>().ok()), None);
}

#[test]
fn position_counts_from_zero() {
    assert_eq!(vec![1, 2, 3].position(|x: i32| x == 1), Some(0));
    assert_eq!(vec![1, 2, 3].position(|x: i32| x == 2), Some(1));
    assert_eq!(vec![1, 2, 2].position(|x: i32| x == 2), Some(1));
    assert_eq!(vec![1, 2, 3].position(|x: i32| x == 5), None);
}

#[test]
fn next_nth_and_last() {
    assert_eq!(vec![1, 2, 3].next(), Some(1));
    assert_eq!(vec![1, 2, 3].nth(0), Some(1));
    assert_eq!(vec![1, 2, 3].nth(1), Some(2));
    assert_eq!(vec![1, 2, 3].nth(2), Some(3));
    assert_eq!(vec![1, 2, 3].nth(3), None);
    assert_eq!(InternalIterator::last(vec![1, 2, 3]), Some(3));
    assert_eq!(InternalIterator::last(vec![1, 2, 3, 4, 5]), Some(5));
    assert_eq!(InternalIterator::last(Vec::<i32>::new()), None);
}

#[test]
fn for_each_visits_every_item_in_order() {
    let mut seen = Vec::new();
    vec![3, 1, 2].for_each(|x: i32| seen.push(x));
    assert_eq!(seen, vec![3, 1, 2]);
}

#[test]
fn max_and_min() {
    assert_eq!(InternalIterator::max(vec![1, 3, 2]), Some(3));
    assert_eq!(InternalIterator::min(vec![2, 1, 3]), Some(1));
    assert_eq!(InternalIterator::max(Vec::<u32>::new()), None);
    assert_eq!(InternalIterator::min(Vec::<u32>::new()), None);
    assert_eq!(InternalIterator::max(vec![7]), Some(7));
    assert_eq!(vec![1, 3, 2].max_by(Natural {}), Some(3));
    assert_eq!(vec![2, 1, 3].min_by(Natural {}), Some(1));
}

#[test]
fn max_keeps_the_last_of_equal_items() {
    assert_eq!(vec![(1, 'a'), (1, 'b')].max_by(ByFirst), Some((1, 'b')));
    assert_eq!(vec![(2, 'a'), (1, 'x'), (2, 'b'), (2, 'c'), (0, 'y')].max_by(ByFirst), Some((2, 'c')));
}

#[test]
fn min_keeps_the_first_of_equal_items() {
    assert_eq!(vec![(1, 'a'), (1, 'b')].min_by(ByFirst), Some((1, 'a')));
    assert_eq!(vec![(2, 'x'), (1, 'a'), (3, 'y'), (1, 'b'), (1, 'c')].min_by(ByFirst), Some((1, 'a')));
}

#[test]
fn max_by_and_min_by_of_two() {
    let mut compare = ByFirst;
    assert_eq!(max_by((1, 'a'), (2, 'b'), &mut compare), (2, 'b'));
    assert_eq!(max_by((2, 'a'), (1, 'b'), &mut compare), (2, 'a'));
    assert_eq!(max_by((1, 'a'), (1, 'b'), &mut compare), (1, 'a'));
    assert_eq!(min_by((1, 'a'), (2, 'b'), &mut compare), (1, 'a'));
    assert_eq!(min_by((2, 'a'), (1, 'b'), &mut compare), (1, 'b'));
    assert_eq!(min_by((1, 'a'), (1, 'b'), &mut compare), (1, 'a'));
}

#[test]
fn terminal_operations_on_bridged_iterators() {
    let a = [1, 2, 3];
    assert!(a.iter().into_internal().all(|x: &i32| *x > 0));
    assert!(!a.iter().into_internal().all(|x: &i32| *x < 2));
    assert!(a.iter().into_internal().any(|x: &i32| *x == 2));
    assert!(!a.iter().into_internal().any(|x: &i32| *x > 5));
    assert_eq!(a.iter().into_internal().find(|x: &&i32| **x == 2), Some(&2));
    assert_eq!(a.iter().into_internal().find(|x: &&i32| **x == 5), None);
    assert_eq!(a.iter().into_internal().position(|x: &i32| *x == 2), Some(1));
    assert_eq!(a.iter().into_internal().position(|x: &i32| *x == 5), None);
    assert_eq!(a.iter().into_internal().max(), Some(&3));
    assert_eq!(a.iter().into_internal().min(), Some(&1));
    assert_eq!(a.iter().into_internal().nth(1), Some(&2));
    assert_eq!(a.iter().into_internal().last(), Some(&3));
    assert_eq!(a.iter().into_internal().next(), Some(&1));
    assert_eq!(a.iter().into_internal().count(), 3);
    let parsed = ["lol", "4", "5"].into_iter().into_internal().find_map(|x: &str| x.parse::<i32>().ok());
    assert_eq!(parsed, Some(4));
    let pairs = vec![(1, 'a'), (1, 'b')];
    assert_eq!(pairs.clone().into_iter().into_internal().max_by(ByFirst), Some((1, 'b')));
    assert_eq!(pairs.into_iter().into_internal().min_by(ByFirst), Some((1, 'a')));
}
