//! The bridge from conventional iterators, which are asked for one item at
//! a time.
use crate::consumer::{
    lemma_break_ends_run, lemma_reaches, lemma_run_push, progress, readiness, run, safe_within,
    Consumer,
};
use crate::convert::FromInternalIterator;
use crate::iterator::InternalIterator;
use crate::sources::pull;
use crate::extremum::{best_of, lemma_best_oracle, lemma_best_run, Best};
use crate::func::{Comparator, Natural, RefFn, UnaryFn};
use crate::terminal::{
    first_match, lemma_counter_oracle, lemma_counter_run, lemma_find_map_oracle,
    lemma_find_map_run, lemma_find_oracle, lemma_find_run, lemma_first_match,
    lemma_first_oracle, lemma_last_oracle, lemma_last_run, lemma_nth_oracle, lemma_nth_run,
    lemma_position_oracle, lemma_position_run, lemma_until_oracle, lemma_until_run, Counter,
    unconditional, Find, FindMap, First, Last, Nth, Position, Until,
};
use core::ops::ControlFlow;
use vstd::prelude::*;
use vstd::std_specs::iter::IteratorSpec;

verus! {

/// A conventional iterator, driven as an internal one.
///
/// What a conventional iterator will yield is known only as a prophecy of
/// what it has left to give, and the items of an internal iterator are no
/// prophecy. So this iterator is not exact: an adaptor over it is only
/// known to hand on what the wrapped iterator gives. The traversal and the
/// terminal operations of this type itself state their results over what
/// the wrapped iterator has left to give.
pub struct Internal<I> {
    pub iterator: I,
}

impl<I: Iterator> InternalIterator for Internal<I> {
    type Item = I::Item;

    /// The wrapped iterator keeps the laws of `Iterator` and comes to an
    /// end, and the consumer is ready for whatever comes as long as it goes
    /// on, up to as many items as the measure of the iterator leaves room
    /// for.
    open spec fn safe(
        &self,
        ready: spec_fn(Seq<I::Item>, I::Item) -> bool,
        going: spec_fn(Seq<I::Item>) -> bool,
    ) -> bool {
        &&& self.iterator.obeys_prophetic_iter_laws()
        &&& self.iterator.decrease() is Some
        &&& safe_within(self.iterator.decrease()->0, ready, going)
    }

    /// Asks the wrapped iterator for one item after the other and hands each
    /// to the consumer, until there is none left or the consumer breaks. No
    /// item is asked for after that. The outcome is that of feeding the
    /// consumer what the wrapped iterator had left to give.
    fn try_for_each<C: Consumer<I::Item>>(self, consumer: C) -> (out: (
        ControlFlow<C::Break>,
        C,
    ))
        ensures
            (out.1@, out.0) == run::<I::Item, C>(consumer@, self.iterator.remaining()),
    {
        let ghost start = consumer@;
        let ghost items = self.iterator.remaining();
        let ghost ready = readiness::<I::Item, C>(start);
        let ghost going = progress::<I::Item, C>(start);
        let ghost bound = self.iterator.decrease()->0;
        let ghost mut i: int = 0;
        let mut current = consumer;
        let mut iterator = self.iterator;
        proof {
            assert(items.take(0) =~= Seq::<I::Item>::empty());
            assert(items.skip(0) =~= items);
        }
        loop
            invariant
                start == consumer@,
                items == self.iterator.remaining(),
                ready == readiness::<I::Item, C>(start),
                going == progress::<I::Item, C>(start),
                safe_within(bound, ready, going),
                iterator.obeys_prophetic_iter_laws(),
                iterator.decrease() is Some,
                i + iterator.decrease()->0 <= bound,
                0 <= i <= items.len(),
                iterator.remaining() == items.skip(i),
                run::<I::Item, C>(start, items.take(i)) == (
                    current@,
                    ControlFlow::<C::Break, ()>::Continue(()),
                ),
            decreases iterator.decrease()->0,
        {
            match pull(&mut iterator) {
                None => {
                    proof {
                        assert(items.skip(i).len() == 0);
                        assert(items.take(i) =~= items);
                        lemma_reaches::<I::Item, C>(start, items);
                    }
                    return (ControlFlow::Continue(()), current);
                },
                Some(item) => {
                    proof {
                        assert(item == items[i]);
                        assert(going(items.take(i)));
                        assert(ready(items.take(i), item));
                        lemma_run_push::<I::Item, C>(start, items.take(i), item);
                        assert(items.take(i).push(item) =~= items.take(i + 1));
                        assert(items.skip(i).drop_first() =~= items.skip(i + 1));
                        lemma_reaches::<I::Item, C>(start, items.take(i + 1));
                    }
                    let (signal, next) = current.accept(item);
                    current = next;
                    proof {
                        i = i + 1;
                    }
                    match signal {
                        ControlFlow::Break(value) => {
                            proof {
                                lemma_break_ends_run::<I::Item, C>(start, items, i);
                            }
                            return (ControlFlow::Break(value), current);
                        },
                        ControlFlow::Continue(unit) => {
                            assert(unit == ());
                        },
                    }
                },
            }
        }
    }

    /// Whether `f` holds of every item that the wrapped iterator gives.
    fn all<F>(self, f: F) -> (r: bool) where F: UnaryFn<I::Item, Output = bool>
        ensures
            r == forall|i: int|
                0 <= i < self.iterator.remaining().len() ==> f.result(
                    #[trigger] self.iterator.remaining()[i],
                ),
    {
        proof {
            lemma_until_oracle::<I::Item, F>(f, false);
            lemma_until_run::<I::Item, F>(f, false, self.iterator.remaining());
        }
        let (signal, _) = self.try_for_each(Until { f, target: false });
        match signal {
            ControlFlow::Continue(_) => true,
            ControlFlow::Break(_) => false,
        }
    }

    /// Whether `f` holds of some item that the wrapped iterator gives.
    fn any<F>(self, f: F) -> (r: bool) where F: UnaryFn<I::Item, Output = bool>
        ensures
            r == exists|i: int|
                0 <= i < self.iterator.remaining().len() && f.result(
                    #[trigger] self.iterator.remaining()[i],
                ),
    {
        proof {
            lemma_until_oracle::<I::Item, F>(f, true);
            lemma_until_run::<I::Item, F>(f, true, self.iterator.remaining());
        }
        let (signal, _) = self.try_for_each(Until { f, target: true });
        match signal {
            ControlFlow::Continue(_) => false,
            ControlFlow::Break(_) => true,
        }
    }

    /// The first item that the wrapped iterator gives of which `predicate`
    /// holds.
    fn find<P>(self, predicate: P) -> (r: Option<I::Item>) where
        P: RefFn<I::Item, Output = bool>,

        ensures
            r == (match first_match(
                self.iterator.remaining(),
                |x: I::Item| predicate.result_ref(x),
            ) {
                Some(i) => Some(self.iterator.remaining()[i]),
                None => None,
            }),
    {
        proof {
            lemma_find_oracle::<I::Item, P>(predicate);
            lemma_find_run::<I::Item, P>(predicate, self.iterator.remaining());
        }
        let (signal, _) = self.try_for_each(Find { predicate });
        match signal {
            ControlFlow::Continue(_) => None,
            ControlFlow::Break(item) => Some(item),
        }
    }

    /// What `f` gives on the first item that the wrapped iterator gives and
    /// that `f` maps to `Some`.
    fn find_map<R, F>(self, f: F) -> (r: Option<R>) where F: UnaryFn<I::Item, Output = Option<R>>
        ensures
            r == (match first_match(
                self.iterator.remaining(),
                |x: I::Item| f.result(x) is Some,
            ) {
                Some(i) => f.result(self.iterator.remaining()[i]),
                None => None,
            }),
    {
        proof {
            lemma_find_map_oracle::<I::Item, R, F>(f);
            lemma_find_map_run::<I::Item, R, F>(f, self.iterator.remaining());
            lemma_first_match(self.iterator.remaining(), |x: I::Item| f.result(x) is Some);
        }
        let (signal, _) = self.try_for_each(FindMap { f });
        match signal {
            ControlFlow::Continue(_) => None,
            ControlFlow::Break(found) => Some(found),
        }
    }

    /// The index of the first item that the wrapped iterator gives of which
    /// `f` holds.
    fn position<F>(self, f: F) -> (r: Option<usize>) where F: UnaryFn<I::Item, Output = bool>
        ensures
            r == (match first_match(self.iterator.remaining(), |x: I::Item| f.result(x)) {
                Some(i) => Some(i as usize),
                None => None,
            }),
    {
        proof {
            lemma_position_oracle::<I::Item, F>(f);
            lemma_position_run::<I::Item, F>(f, 0, self.iterator.remaining());
        }
        let (signal, _) = self.try_for_each(Position { f, index: 0 });
        match signal {
            ControlFlow::Continue(_) => None,
            ControlFlow::Break(index) => Some(index),
        }
    }

    /// The greatest, under `compare`, of the items that the wrapped iterator
    /// gives; of several equal ones, the last.
    fn max_by<F>(self, compare: F) -> (r: Option<I::Item>) where F: Comparator<I::Item>
        ensures
            r == best_of(compare, true, None, self.iterator.remaining()),
    {
        proof {
            lemma_best_oracle::<I::Item, F>(compare, true);
            lemma_best_run::<I::Item, F>(compare, true, None, self.iterator.remaining());
        }
        let (_, best) = self.try_for_each(Best { compare, greatest: true, held: None });
        best.held
    }

    /// The least, under `compare`, of the items that the wrapped iterator
    /// gives; of several equal ones, the first.
    fn min_by<F>(self, compare: F) -> (r: Option<I::Item>) where F: Comparator<I::Item>
        ensures
            r == best_of(compare, false, None, self.iterator.remaining()),
    {
        proof {
            lemma_best_oracle::<I::Item, F>(compare, false);
            lemma_best_run::<I::Item, F>(compare, false, None, self.iterator.remaining());
        }
        let (_, best) = self.try_for_each(Best { compare, greatest: false, held: None });
        best.held
    }

    /// The greatest of the items that the wrapped iterator gives; of several
    /// equal ones, the last.
    fn max(self) -> (r: Option<I::Item>) where I::Item: Ord
        ensures
            r == best_of(Natural {  }, true, None, self.iterator.remaining()),
    {
        self.max_by(Natural {  })
    }

    /// The least of the items that the wrapped iterator gives; of several
    /// equal ones, the first.
    fn min(self) -> (r: Option<I::Item>) where I::Item: Ord
        ensures
            r == best_of(Natural {  }, false, None, self.iterator.remaining()),
    {
        self.min_by(Natural {  })
    }

    /// The number of items that the wrapped iterator gives.
    fn count(self) -> (n: usize)
        ensures
            n == self.iterator.remaining().len(),
    {
        proof {
            lemma_counter_oracle::<I::Item>();
            lemma_counter_run::<I::Item>(0, self.iterator.remaining());
        }
        let (_, counter) = self.try_for_each(Counter { n: 0 });
        counter.n
    }

    /// The first item that the wrapped iterator gives. It is not asked for
    /// another.
    fn next(self) -> (r: Option<I::Item>)
        ensures
            r == (if self.iterator.remaining().len() == 0 {
                None
            } else {
                Some(self.iterator.remaining()[0])
            }),
    {
        proof {
            lemma_first_oracle::<I::Item>();
        }
        let (signal, _) = self.try_for_each(First {  });
        match signal {
            ControlFlow::Continue(_) => None,
            ControlFlow::Break(item) => Some(item),
        }
    }

    /// The last item that the wrapped iterator gives.
    fn last(self) -> (r: Option<I::Item>)
        ensures
            r == (if self.iterator.remaining().len() == 0 {
                None
            } else {
                Some(self.iterator.remaining().last())
            }),
    {
        proof {
            lemma_last_oracle::<I::Item>(None);
            lemma_last_run::<I::Item>(None, self.iterator.remaining());
        }
        let (_, last) = self.try_for_each(Last { slot: None });
        last.slot
    }

    /// The item that the wrapped iterator gives after `n` others. It is not
    /// asked for another.
    fn nth(self, n: usize) -> (r: Option<I::Item>)
        ensures
            r == (if n < self.iterator.remaining().len() {
                Some(self.iterator.remaining()[n as int])
            } else {
                None
            }),
    {
        proof {
            lemma_nth_oracle::<I::Item>(n as nat);
            lemma_nth_run::<I::Item>(n as nat, self.iterator.remaining());
        }
        let (signal, _) = self.try_for_each(Nth { n });
        match signal {
            ControlFlow::Continue(_) => None,
            ControlFlow::Break(item) => Some(item),
        }
    }
}

impl<I: Iterator> Internal<I> {
    /// Drives the wrapped iterator and puts each item that it gives into a
    /// new container.
    pub fn collect<B: FromInternalIterator<I::Item>>(self) -> (r: B)
        requires
            self.safe(unconditional(), B::builds_on()),
            B::can_build(),
        ensures
            r.built_from(self.iterator.remaining()),
    {
        let (signal, collector) = self.try_for_each(B::collector());
        B::finish(signal, collector)
    }
}

/// Conventional iterators, with the way over to internal iteration.
pub trait IteratorExt: Iterator + Sized {
    /// Wraps the iterator so that it can be driven as an internal one.
    fn into_internal(self) -> (r: Internal<Self>)
        ensures
            r.iterator == self,
    {
        Internal { iterator: self }
    }
}

impl<I: Iterator> IteratorExt for I {}

} // verus!
