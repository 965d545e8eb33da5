use core::cell::{Cell, RefCell};
use core::ops::ControlFlow;
use internal_iterator::{
    from_fn, BreakValue, Consumer, Generator, InternalIterator, InternalIteratorExt,
    IntoInternalIterator, IteratorExt, Sink,
};

/// Yields `1..=limit` and records how many items it handed over and whether
/// it came to its end.
struct Counting<'a> {
    limit: i32,
    handed: &'a Cell<usize>,
    exhausted: &'a Cell<bool>,
}

impl<'a> InternalIterator for Counting<'a> {
    type Item = i32;

    fn try_for_each<C: Consumer<i32>>(self, consumer: C) -> (ControlFlow<C::Break>, C) {
        let mut consumer = consumer;
        for x in 1..=self.limit {
            self.handed.set(self.handed.get() + 1);
            let (signal, next) = consumer.accept(x);
            consumer = next;
            if let ControlFlow::Break(value) = signal {
                return (ControlFlow::Break(value), consumer);
            }
        }
        self.exhausted.set(true);
        (ControlFlow::Continue(()), consumer)
    }
}

#[test]
fn chain_yields_first_then_second() {
    let chained = vec![1, 2, 3].chain(vec![4, 5, 6]).collect::<Vec<_>>();
    assert_eq!(chained, vec![1, 2, 3, 4, 5, 6]);
}

#[test]
fn chain_stops_in_first_half() {
    let handed = Cell::new(0);
    let exhausted = Cell::new(false);
    let second = Counting { limit: 3, handed: &handed, exhausted: &exhausted };
    let found = vec![10, 20, 30].chain(second).find(|x: &i32| *x == 20);
    assert_eq!(found, Some(20));
    assert_eq!(handed.get(), 0);
    assert!(!exhausted.get());
}

#[test]
fn chain_last_comes_from_second_unless_empty() {
    assert_eq!(vec![1, 2].chain(vec![3, 4]).last(), Some(4));
    assert_eq!(vec![1, 2].chain(Vec::<i32>::new()).last(), Some(2));
    assert_eq!(Vec::<i32>::new().chain(Vec::<i32>::new()).last(), None);
}

#[test]
fn filter_sees_mapped_values() {
    let kept = vec![1, 2, 3, 4].map(|x: i32| x * 10).filter(|x: &i32| *x > 20).collect::<Vec<_>>();
    assert_eq!(kept, vec![30, 40]);
}

#[test]
fn every_item_is_delivered_once() {
    let mut seen = Vec::new();
    vec![1, 2, 3, 4, 5]
        .map(|x: i32| x + 1)
        .filter(|x: &i32| *x % 2 == 0)
        .skip(1)
        .for_each(|x: i32| seen.push(x));
    assert_eq!(seen, vec![4, 6]);
}

#[test]
fn nothing_is_delivered_after_a_break() {
    let seen = RefCell::new(Vec::new());
    let found = vec![1, 2, 3, 4, 5]
        .inspect(|x: &i32| seen.borrow_mut().push(*x))
        .map(|x: i32| x * 2)
        .find(|x: &i32| *x == 6);
    assert_eq!(found, Some(6));
    assert_eq!(*seen.borrow(), vec![1, 2, 3]);
}

#[test]
fn take_yields_the_first_items() {
    assert_eq!(vec![1, 2, 3, 4].take(2).collect::<Vec<_>>(), vec![1, 2]);
    assert_eq!(vec![1, 2, 3].take(3).collect::<Vec<_>>(), vec![1, 2, 3]);
    assert_eq!(vec![1, 2, 3].take(10).collect::<Vec<_>>(), vec![1, 2, 3]);
    assert_eq!(vec![1, 2, 3].take(0).collect::<Vec<_>>(), Vec::<i32>::new());
    assert_eq!(vec![1, 2, 3, 4].take(2).count(), 2);
    assert_eq!(vec![1, 2, 3].take(10).count(), 3);
}

#[test]
fn take_does_not_ask_for_another_item() {
    let handed = Cell::new(0);
    let exhausted = Cell::new(false);
    let source = Counting { limit: 5, handed: &handed, exhausted: &exhausted };
    assert_eq!(source.take(2).collect::<Vec<_>>(), vec![1, 2]);
    assert_eq!(handed.get(), 2);
    assert!(!exhausted.get());
}

#[test]
fn take_of_a_shorter_source_runs_it_to_its_end() {
    let handed = Cell::new(0);
    let exhausted = Cell::new(false);
    let source = Counting { limit: 2, handed: &handed, exhausted: &exhausted };
    assert_eq!(source.take(5).collect::<Vec<_>>(), vec![1, 2]);
    assert_eq!(handed.get(), 2);
    assert!(exhausted.get());
}

#[test]
fn take_hands_on_a_break_on_its_last_item() {
    assert_eq!(vec![1, 2, 3].take(3).nth(2), Some(3));
    assert_eq!(vec![1, 2, 3, 4].take(2).find(|x: &i32| *x == 2), Some(2));
    assert_eq!(vec![1, 2, 3, 4].take(2).find(|x: &i32| *x == 3), None);
    assert_eq!(vec![1, 2, 3, 4].take(1).next(), Some(1));
}

#[test]
fn skip_leaves_out_the_first_items() {
    assert_eq!(vec![1, 2, 3, 4].skip(2).collect::<Vec<_>>(), vec![3, 4]);
    assert_eq!(vec![1, 2, 3].skip(0).collect::<Vec<_>>(), vec![1, 2, 3]);
    assert_eq!(vec![1, 2, 3].skip(3).collect::<Vec<_>>(), Vec::<i32>::new());
    assert_eq!(vec![1, 2, 3].skip(10).collect::<Vec<_>>(), Vec::<i32>::new());
    assert_eq!(vec![1, 2, 3, 4, 5].skip(1).take(2).collect::<Vec<_>>(), vec![2, 3]);
}

#[test]
fn enumerate_pairs_items_with_indices() {
    let pairs = vec!['a', 'b', 'c'].enumerate().collect::<Vec<_>>();
    assert_eq!(pairs, vec![(0, 'a'), (1, 'b'), (2, 'c')]);
    assert_eq!(vec!['a', 'b', 'c'].enumerate().nth(1), Some((1, 'b')));
    assert_eq!(vec!['a', 'b', 'c'].enumerate().nth(3), None);
    assert_eq!(vec!['a', 'b', 'c'].enumerate().count(), 3);
    assert_eq!(vec!['a', 'b', 'c'].skip(1).enumerate().collect::<Vec<_>>(), vec![(0, 'b'), (1, 'c')]);
}

#[test]
fn filter_map_keeps_what_is_some() {
    let parsed = vec!["1", "two", "NaN", "four", "5"]
        .filter_map(|x: &str| x.parse::<i32>().ok())
        .collect::<Vec<_>>();
    assert_eq!(parsed, vec![1, 5]);
}

#[test]
fn flat_map_yields_inner_items_in_order() {
    let mapped = vec![1, 2, 3].flat_map(|x: i32| vec![x * 10 + 2, x * 10 + 3]).collect::<Vec<_>>();
    assert_eq!(mapped, vec![12, 13, 22, 23, 32, 33]);
}

#[test]
fn flat_map_hands_on_an_inner_break() {
    let calls = Cell::new(0);
    let found = vec![1, 2, 3]
        .flat_map(|x: i32| {
            calls.set(calls.get() + 1);
            vec![x, x * 10]
        })
        .find(|x: &i32| *x == 20);
    assert_eq!(found, Some(20));
    assert_eq!(calls.get(), 2);
}

#[test]
fn flat_map_over_bridged_iterators() {
    let mapped = vec![1, 2]
        .flat_map(|x: i32| vec![x, x * 10].into_iter().into_internal())
        .collect::<Vec<_>>();
    assert_eq!(mapped, vec![1, 10, 2, 20]);
}

#[test]
fn inspect_looks_at_each_item_that_passes() {
    let seen = RefCell::new(Vec::new());
    let halves = vec![1, 4, 6, 3, 2]
        .filter(|x: &i32| *x % 2 == 0)
        .inspect(|x: &i32| seen.borrow_mut().push(*x))
        .map(|x: i32| x / 2)
        .collect::<Vec<_>>();
    assert_eq!(halves, vec![2, 3, 1]);
    assert_eq!(*seen.borrow(), vec![4, 6, 2]);
}

#[test]
fn copied_and_cloned_yield_values() {
    let a = [1, 2, 3];
    let refs = vec![&a[0], &a[1], &a[2]];
    assert_eq!(refs.clone().copied().collect::<Vec<_>>(), vec![1, 2, 3]);
    assert_eq!(refs.clone().cloned().collect::<Vec<_>>(), vec![1, 2, 3]);
    assert_eq!(refs.clone().copied().count(), 3);
    assert_eq!(refs.clone().copied().last(), Some(3));
    assert_eq!(refs.clone().copied().nth(1), Some(2));
    assert_eq!(refs.copied().nth(3), None);
}

#[test]
fn arrays_and_vectors_are_sources() {
    assert_eq!([7, 8, 9].into_internal_iter().collect::<Vec<_>>(), vec![7, 8, 9]);
    assert_eq!(vec![7, 8, 9].into_internal_iter().collect::<Vec<_>>(), vec![7, 8, 9]);
    assert_eq!([7, 8, 9].into_internal_iter().nth(1), Some(8));
    assert_eq!(Vec::<i32>::new().next(), None);
}

#[test]
fn bridge_round_trip() {
    let back = vec![1, 2, 3].into_iter().into_internal().collect::<Vec<_>>();
    assert_eq!(back, vec![1, 2, 3]);
}

#[test]
fn bridge_stops_asking_after_a_break() {
    let asked = Cell::new(0);
    let source = std::iter::from_fn(|| {
        asked.set(asked.get() + 1);
        Some(asked.get())
    });
    assert_eq!(source.into_internal().find(|x: &i32| *x == 3), Some(3));
    assert_eq!(asked.get(), 3);
}

/// Puts `1`, `x` and, where there is one, the value of `y`.
struct Some3 {
    x: i32,
    y: Option<i32>,
}

impl Generator<i32> for Some3 {
    fn generate<'a, S: Sink<'a, i32>>(self, f: &mut S) -> ControlFlow<BreakValue<'a>> {
        f.put(1)?;
        f.put(self.x)?;
        if let Some(value) = self.y {
            f.put(value)?;
        }
        ControlFlow::Continue(())
    }
}

#[test]
fn from_fn_yields_what_the_generator_puts() {
    let iter = from_fn(Some3 { x: 2, y: Some(3) });
    assert_eq!(iter.collect::<Vec<_>>(), vec![1, 2, 3]);
    assert_eq!(from_fn(Some3 { x: 5, y: None }).collect::<Vec<_>>(), vec![1, 5]);
}

#[test]
fn from_fn_over_a_vector_yields_its_items() {
    assert_eq!(from_fn(vec![4, 5, 6]).collect::<Vec<_>>(), vec![4, 5, 6]);
    assert_eq!(from_fn(vec![4, 5, 6]).take(2).collect::<Vec<_>>(), vec![4, 5]);
    assert_eq!(from_fn(vec![4, 5, 6]).chain([7]).count(), 4);
    assert_eq!(from_fn(Vec::<i32>::new()).next(), None);
}

/// Puts `1`, `2`, `3` and records how far it came.
struct Tracing<'r> {
    reached: &'r Cell<i32>,
}

impl<'r> Generator<i32> for Tracing<'r> {
    fn generate<'a, S: Sink<'a, i32>>(self, f: &mut S) -> ControlFlow<BreakValue<'a>> {
        self.reached.set(1);
        f.put(1)?;
        self.reached.set(2);
        f.put(2)?;
        self.reached.set(3);
        f.put(3)?;
        self.reached.set(4);
        ControlFlow::Continue(())
    }
}

#[test]
fn from_fn_generator_is_told_to_stop() {
    let reached = Cell::new(0);
    let iter = from_fn(Tracing { reached: &reached });
    assert_eq!(iter.take(2).collect::<Vec<_>>(), vec![1, 2]);
    assert_eq!(reached.get(), 2);
}

/// Puts `1`, `2`, `3` whatever the sink answers.
struct Deaf;

impl Generator<i32> for Deaf {
    fn generate<'a, S: Sink<'a, i32>>(self, f: &mut S) -> ControlFlow<BreakValue<'a>> {
        let _ = f.put(1);
        let _ = f.put(2);
        let _ = f.put(3);
        ControlFlow::Continue(())
    }
}

#[test]
fn from_fn_lets_nothing_through_after_a_break() {
    assert_eq!(from_fn(Deaf).find(|x: &i32| *x == 2), Some(2));

    let seen = RefCell::new(Vec::new());
    let found =
        from_fn(Deaf).inspect(|x: &i32| seen.borrow_mut().push(*x)).find(|x: &i32| *x == 2);
    assert_eq!(found, Some(2));
    assert_eq!(*seen.borrow(), vec![1, 2]);
}

#[test]
fn take_spares_the_function_what_lies_behind() {
    let quotients = vec![1, 2, 0, 5].map(|x: i32| 10 / x).take(2).collect::<Vec<_>>();
    assert_eq!(quotients, vec![10, 5]);
    let found = vec![4, 2, 0].map(|x: i32| 8 / x).find(|x: &i32| *x == 4);
    assert_eq!(found, Some(4));
}

#[test]
fn borrowed_vectors_are_sources() {
    let v = vec![3, 4, 5];
    assert_eq!((&v).into_internal_iter().copied().collect::<Vec<_>>(), vec![3, 4, 5]);
    assert_eq!((&v).into_internal_iter().cloned().nth(1), Some(4));
    assert_eq!((&v).into_internal_iter().count(), 3);
    assert_eq!(v, vec![3, 4, 5]);
}

#[test]
fn ranges_and_slices_are_sources() {
    assert_eq!((10i32..13).into_internal_iter().collect::<Vec<i32>>(), vec![10, 11, 12]);
    assert_eq!((5i32..5).into_internal_iter().collect::<Vec<i32>>(), Vec::<i32>::new());
    assert_eq!((5i32..3).into_internal_iter().collect::<Vec<i32>>(), Vec::<i32>::new());
    assert_eq!((-2i32..2).into_internal_iter().map(|x: i32| x * x).collect::<Vec<_>>(), vec![4, 1, 0, 1]);
    assert_eq!((3usize..6).into_internal_iter().nth(1), Some(4));
    assert_eq!((0usize..1000).into_internal_iter().take(3).collect::<Vec<_>>(), vec![0, 1, 2]);

    let v = vec![7, 8, 9];
    let slice: &[i32] = &v[1..];
    assert_eq!(slice.into_internal_iter().copied().collect::<Vec<_>>(), vec![8, 9]);
    assert_eq!(slice.into_internal_iter().count(), 2);
}

#[test]
fn bridged_iterators_count_and_give_their_first() {
    assert_eq!((0..5).into_internal().count(), 5);
    assert_eq!((3..5).into_internal().next(), Some(3));
    assert_eq!(vec![1, 2, 3].into_iter().into_internal().count(), 3);
    assert_eq!(Vec::<i32>::new().into_iter().into_internal().next(), None);
    assert_eq!([1, 2, 3, 4].iter().into_internal().skip(2).collect::<Vec<_>>(), vec![&3, &4]);
    assert_eq!([1, 2, 3, 4].iter().into_internal().take(2).collect::<Vec<_>>(), vec![&1, &2]);
}
