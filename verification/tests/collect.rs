use core::cell::Cell;
use core::ops::ControlFlow;
use internal_iterator::{
    Consumer, InternalIterator, InternalIteratorExt, IntoInternalIterator, IteratorExt,
};
use std::collections::{BTreeMap, BTreeSet, HashMap, HashSet};

/// Yields the given results and records whether it came to its end.
struct Results<'a> {
    items: Vec<Result<i32, &'static str>>,
    exhausted: &'a Cell<bool>,
}

impl<'a> InternalIterator for Results<'a> {
    type Item = Result<i32, &'static str>;

    fn try_for_each<C: Consumer<Self::Item>>(self, consumer: C) -> (ControlFlow<C::Break>, C) {
        let mut consumer = consumer;
        for item in self.items {
            let (signal, next) = consumer.accept(item);
            consumer = next;
            if let ControlFlow::Break(value) = signal {
                return (ControlFlow::Break(value), consumer);
            }
        }
        self.exhausted.set(true);
        (ControlFlow::Continue(()), consumer)
    }
}

#[test]
fn collect_into_vec_keeps_order() {
    assert_eq!(vec![3, 1, 2].collect::<Vec<_>>(), vec![3, 1, 2]);
    assert_eq!(Vec::<i32>::new().collect::<Vec<_>>(), Vec::<i32>::new());
}

#[test]
fn collect_into_string() {
    assert_eq!(vec!['a', 'b', 'c'].collect::<String>(), "abc");
    assert_eq!(vec!['a', 'b', 'c'].map(|c: char| c.to_ascii_uppercase()).collect::<String>(), "ABC");
    assert_eq!(Vec::<char>::new().collect::<String>(), "");
}

#[test]
fn collect_into_sets_drops_repeats() {
    let hashed = vec![3, 1, 3, 2, 1].collect::<HashSet<_>>();
    assert_eq!(hashed, HashSet::from([1, 2, 3]));
    let ordered = vec![3, 1, 3, 2, 1].collect::<BTreeSet<_>>();
    assert_eq!(ordered.into_iter().collect::<Vec<_>>(), vec![1, 2, 3]);
}

#[test]
fn collect_into_maps_keeps_the_later_pair() {
    let hashed = vec![(1, "a"), (2, "b"), (1, "c")].collect::<HashMap<_, _>>();
    assert_eq!(hashed, HashMap::from([(1, "c"), (2, "b")]));
    let ordered = vec![(2, "b"), (1, "a"), (1, "c")].collect::<BTreeMap<_, _>>();
    assert_eq!(ordered.into_iter().collect::<Vec<_>>(), vec![(1, "c"), (2, "b")]);
}

#[test]
fn collect_with_errors() {
    let failed = vec![Ok(1), Ok(2), Err("e"), Ok(4)].collect::<Result<Vec<i32>, &str>>();
    assert_eq!(failed, Err("e"));
    let fine = vec![Ok::<i32, &str>(1), Ok(2)].collect::<Result<Vec<i32>, &str>>();
    assert_eq!(fine, Ok(vec![1, 2]));
    let empty = Vec::<Result<i32, &str>>::new().collect::<Result<Vec<i32>, &str>>();
    assert_eq!(empty, Ok(vec![]));
}

#[test]
fn collect_returns_the_first_error_and_stops() {
    let exhausted = Cell::new(false);
    let source = Results { items: vec![Ok(1), Err("first"), Ok(3), Err("second")], exhausted: &exhausted };
    assert_eq!(source.collect::<Result<Vec<i32>, &str>>(), Err("first"));
    assert!(!exhausted.get());
}

#[test]
fn collect_results_into_a_set() {
    let set = vec![Ok::<i32, &str>(2), Ok(1), Ok(2)].collect::<Result<BTreeSet<i32>, &str>>();
    assert_eq!(set, Ok(BTreeSet::from([1, 2])));
}

#[test]
fn borrowed_sets_and_maps_turn_into_iterators() {
    let ordered = BTreeSet::from([3, 1, 2]);
    assert_eq!((&ordered).into_internal_iter().copied().collect::<Vec<_>>(), vec![1, 2, 3]);

    let map = BTreeMap::from([(2, 'b'), (1, 'a')]);
    let pairs = (&map).into_internal_iter().map(|kv: (&i32, &char)| (*kv.0, *kv.1)).collect::<Vec<_>>();
    assert_eq!(pairs, vec![(1, 'a'), (2, 'b')]);

    let hashed = HashSet::from([5, 6, 7]);
    assert_eq!((&hashed).into_internal_iter().copied().collect::<Vec<_>>().len(), 3);
    assert_eq!((&hashed).into_internal_iter().copied().collect::<BTreeSet<_>>(), BTreeSet::from([5, 6, 7]));

    let table = HashMap::from([(1, 10), (2, 20)]);
    let mut total = 0;
    (&table).into_internal_iter().for_each(|kv: (&i32, &i32)| total += *kv.0 * *kv.1);
    assert_eq!(total, 50);
}

#[test]
fn collect_fallible_containers_of_fallible_items() {
    let inner_fails = vec![Ok::<Result<i32, u8>, &str>(Ok(1)), Ok(Err(9)), Ok(Ok(3))]
        .collect::<Result<Result<Vec<i32>, u8>, &str>>();
    assert_eq!(inner_fails, Ok(Err(9)));
    let outer_fails = vec![Ok::<Result<i32, u8>, &str>(Ok(1)), Err("outer"), Ok(Err(9))]
        .collect::<Result<Result<Vec<i32>, u8>, &str>>();
    assert_eq!(outer_fails, Err("outer"));
    let fine = vec![Ok::<Result<i32, u8>, &str>(Ok(1)), Ok(Ok(2))]
        .collect::<Result<Result<Vec<i32>, u8>, &str>>();
    assert_eq!(fine, Ok(Ok(vec![1, 2])));
}

#[test]
fn collect_from_bridged_iterators() {
    let back = vec![1, 2, 3].into_iter().into_internal().collect::<Vec<_>>();
    assert_eq!(back, vec![1, 2, 3]);
    let failed = vec![Ok(1), Ok(2), Err("e"), Ok(4)]
        .into_iter()
        .into_internal()
        .collect::<Result<Vec<i32>, &str>>();
    assert_eq!(failed, Err("e"));
    let first = vec![Ok(1), Err("a"), Ok(2), Err("b")]
        .into_iter()
        .into_internal()
        .collect::<Result<Vec<i32>, &str>>();
    assert_eq!(first, Err("a"));
    let table = vec![(1, "a"), (2, "b"), (1, "c")].into_iter().into_internal().collect::<HashMap<_, _>>();
    assert_eq!(table, HashMap::from([(1, "c"), (2, "b")]));
    let text = "abc".chars().into_internal().collect::<String>();
    assert_eq!(text, "abc");
}
