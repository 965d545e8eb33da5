//! The iterator trait: one required traversal, and the adaptors and terminal
//! operations that are built on it.
use crate::adaptors::cloned::Cloned;
use crate::adaptors::copied::Copied;
use crate::adaptors::enumerate::Enumerate;
use crate::adaptors::filter::Filter;
use crate::adaptors::filter_map::FilterMap;
use crate::adaptors::flat_map::FlatMap;
use crate::adaptors::inspect::Inspect;
use crate::adaptors::map::Mapped;
use crate::adaptors::skip::Skip;
use crate::adaptors::take::Take;
use crate::consumer::{progress, reaches, readiness, run, Consumer};
use crate::extremum::{best_of, best_ready, lemma_best_oracle, lemma_best_run, Best};
use crate::func::{Comparator, Natural, RefFn, UnaryFn};
use crate::terminal::{
    count_ready, find_going, find_map_going, find_map_ready, find_ready, first_going,
    first_match, for_each_ready, lemma_counter_oracle, lemma_counter_run, lemma_find_map_oracle,
    lemma_find_map_run, lemma_find_oracle, lemma_find_run, lemma_first_match,
    lemma_first_oracle, lemma_for_each_oracle, lemma_last_oracle, lemma_last_run,
    lemma_nth_oracle, lemma_nth_run, lemma_position_oracle, lemma_position_run,
    lemma_until_oracle, lemma_until_run, nth_going, position_going, position_ready,
    unbroken, unconditional, until_going, until_ready, Counter, Find, FindMap, First, ForEach,
    Last, Nth, Position, Until,
};
use core::ops::ControlFlow;
use vstd::prelude::*;

verus! {

/// An iterator that drives its own traversal.
///
/// The one operation to provide is [`InternalIterator::try_for_each`]. It
/// takes the iterator by value: a traversal runs until the items end or the
/// consumer stops it, and cannot be resumed.
///
/// Every other operation is stated against [`InternalIterator::items`], and
/// asks by [`InternalIterator::safe`] no more than that each function is
/// accepted where the traversal gets to: what lies behind the item on which
/// an operation stops is never touched.
pub trait InternalIterator: Sized {
    /// The type of the items that the iterator yields.
    type Item;

    /// The items that a traversal yields, in order, if nothing stops it.
    open spec fn items(&self) -> Seq<Self::Item> {
        Seq::empty()
    }

    /// Whether the iterator may be driven by a consumer of which `ready`
    /// tells what it is ready for and `going` whether it has not broken,
    /// both by the items that it has been handed so far. A source asks that
    /// the consumer is ready for each item that it gets to; an adaptor asks
    /// this of the consumer that it wraps round its own, and so that its
    /// function accepts each item that it gets to.
    open spec fn safe(
        &self,
        ready: spec_fn(Seq<Self::Item>, Self::Item) -> bool,
        going: spec_fn(Seq<Self::Item>) -> bool,
    ) -> bool {
        true
    }

    /// Whether `items` tells what a traversal yields. Where it does not, a
    /// traversal may hand any items to the consumer. An iterator is taken
    /// not to be exact unless it says that it is.
    open spec fn exact(&self) -> bool {
        false
    }

    /// Hands the items to `consumer` in order, each one once, and stops
    /// after the first one that the consumer answers with `Break`. Returns
    /// that `Break`, or `Continue` if the consumer never gave one, together
    /// with the consumer as the traversal left it.
    fn try_for_each<C: Consumer<Self::Item>>(self, consumer: C) -> (out: (
        ControlFlow<C::Break>,
        C,
    ))
        requires
            self.safe(readiness::<Self::Item, C>(consumer@), progress::<Self::Item, C>(consumer@)),
        ensures
            reaches::<Self::Item, C>(consumer@, out.1@, out.0),
            self.exact() ==> (out.1@, out.0) == run::<Self::Item, C>(consumer@, self.items()),
    ;

    /// Whether `f` holds of every item. Stops at the first one of which it
    /// does not; `f` has to accept the items up to that one.
    fn all<F>(self, f: F) -> (r: bool) where F: UnaryFn<Self::Item, Output = bool>
        requires
            self.safe(until_ready(f, false), until_going(f, false)),
        ensures
            self.exact() ==> r == forall|i: int|
                0 <= i < self.items().len() ==> f.result(#[trigger] self.items()[i]),
    {
        proof {
            lemma_until_oracle::<Self::Item, F>(f, false);
            lemma_until_run::<Self::Item, F>(f, false, self.items());
        }
        let (signal, _) = self.try_for_each(Until { f, target: false });
        match signal {
            ControlFlow::Continue(_) => true,
            ControlFlow::Break(_) => false,
        }
    }

    /// Whether `f` holds of some item. Stops at the first one of which it
    /// does; `f` has to accept the items up to that one.
    fn any<F>(self, f: F) -> (r: bool) where F: UnaryFn<Self::Item, Output = bool>
        requires
            self.safe(until_ready(f, true), until_going(f, true)),
        ensures
            self.exact() ==> r == exists|i: int|
                0 <= i < self.items().len() && f.result(#[trigger] self.items()[i]),
    {
        proof {
            lemma_until_oracle::<Self::Item, F>(f, true);
            lemma_until_run::<Self::Item, F>(f, true, self.items());
        }
        let (signal, _) = self.try_for_each(Until { f, target: true });
        match signal {
            ControlFlow::Continue(_) => false,
            ControlFlow::Break(_) => true,
        }
    }

    /// An iterator over clones of the items.
    fn cloned(self) -> (r: Cloned<Self>)
        ensures
            r.iter == self,
    {
        Cloned { iter: self }
    }

    /// An iterator over copies of the items.
    fn copied(self) -> (r: Copied<Self>)
        ensures
            r.iter == self,
    {
        Copied { iter: self }
    }

    /// The number of items, which has to fit into a `usize`.
    fn count(self) -> (n: usize)
        requires
            self.safe(count_ready(), unbroken()),
        ensures
            self.exact() ==> n == self.items().len(),
    {
        proof {
            lemma_counter_oracle::<Self::Item>();
            lemma_counter_run::<Self::Item>(0, self.items());
        }
        let (_, counter) = self.try_for_each(Counter { n: 0 });
        counter.n
    }

    /// An iterator over the items, each with its index.
    fn enumerate(self) -> (r: Enumerate<Self>)
        ensures
            r.iter == self,
    {
        Enumerate { iter: self }
    }

    /// An iterator over the items that `predicate` accepts.
    fn filter<P>(self, predicate: P) -> (r: Filter<Self, P>) where
        P: RefFn<Self::Item, Output = bool>,

        ensures
            r.iter == self,
            r.predicate == predicate,
    {
        Filter { iter: self, predicate }
    }

    /// An iterator over what `f` maps the items to, where that is `Some`.
    fn filter_map<T, F>(self, f: F) -> (r: FilterMap<Self, F>) where
        F: UnaryFn<Self::Item, Output = Option<T>>,

        ensures
            r.iter == self,
            r.f == f,
    {
        FilterMap { iter: self, f }
    }

    /// The first item of which `predicate` holds. Stops there; `predicate`
    /// has to accept the items up to that one.
    fn find<P>(self, predicate: P) -> (r: Option<Self::Item>) where
        P: RefFn<Self::Item, Output = bool>,

        requires
            self.safe(find_ready(predicate), find_going(predicate)),
        ensures
            self.exact() ==> r == (match first_match(
                self.items(),
                |x: Self::Item| predicate.result_ref(x),
            ) {
                Some(i) => Some(self.items()[i]),
                None => None,
            }),
    {
        proof {
            lemma_find_oracle::<Self::Item, P>(predicate);
            lemma_find_run::<Self::Item, P>(predicate, self.items());
        }
        let (signal, _) = self.try_for_each(Find { predicate });
        match signal {
            ControlFlow::Continue(_) => None,
            ControlFlow::Break(item) => Some(item),
        }
    }

    /// What `f` gives on the first item that it maps to `Some`. Stops
    /// there; `f` has to accept the items up to that one.
    fn find_map<R, F>(self, f: F) -> (r: Option<R>) where
        F: UnaryFn<Self::Item, Output = Option<R>>,

        requires
            self.safe(find_map_ready(f), find_map_going(f)),
        ensures
            self.exact() ==> r == (match first_match(
                self.items(),
                |x: Self::Item| f.result(x) is Some,
            ) {
                Some(i) => f.result(self.items()[i]),
                None => None,
            }),
    {
        proof {
            lemma_find_map_oracle::<Self::Item, R, F>(f);
            lemma_find_map_run::<Self::Item, R, F>(f, self.items());
            lemma_first_match(self.items(), |x: Self::Item| f.result(x) is Some);
        }
        let (signal, _) = self.try_for_each(FindMap { f });
        match signal {
            ControlFlow::Continue(_) => None,
            ControlFlow::Break(found) => Some(found),
        }
    }

    /// An iterator over the items of the iterators that `f` maps the items
    /// to.
    fn flat_map<F>(self, f: F) -> (r: FlatMap<Self, F>) where F: UnaryFn<Self::Item>
        ensures
            r.iter == self,
            r.f == f,
    {
        FlatMap { iter: self, f }
    }

    /// Calls `f` on each item, in order. `f` has to accept each of them.
    fn for_each<F>(self, f: F) where F: UnaryFn<Self::Item>
        requires
            self.safe(for_each_ready(f), unbroken()),
    {
        proof {
            lemma_for_each_oracle::<Self::Item, F>(f);
        }
        let _ = self.try_for_each(ForEach { f });
    }

    /// An iterator that calls `f` with a reference to each item on its way
    /// through.
    fn inspect<F>(self, f: F) -> (r: Inspect<Self, F>) where F: RefFn<Self::Item>
        ensures
            r.iter == self,
            r.f == f,
    {
        Inspect { iter: self, f }
    }

    /// The last item. Visits every item.
    fn last(self) -> (r: Option<Self::Item>)
        requires
            self.safe(unconditional(), unbroken()),
        ensures
            self.exact() ==> r == (if self.items().len() == 0 {
                None
            } else {
                Some(self.items().last())
            }),
    {
        proof {
            lemma_last_oracle::<Self::Item>(None);
            lemma_last_run::<Self::Item>(None, self.items());
        }
        let (_, last) = self.try_for_each(Last { slot: None });
        last.slot
    }

    /// An iterator over what `f` maps the items to.
    fn map<F>(self, f: F) -> (r: Mapped<Self, F>) where F: UnaryFn<Self::Item>
        ensures
            r.iter == self,
            r.f == f,
    {
        Mapped { iter: self, f }
    }

    /// The greatest item; of several equal ones, the last.
    fn max(self) -> (r: Option<Self::Item>) where Self::Item: Ord
        requires
            self.safe(best_ready(Natural {  }, true), unbroken()),
        ensures
            self.exact() ==> r == best_of(Natural {  }, true, None, self.items()),
    {
        self.max_by(Natural {  })
    }

    /// The greatest item under `compare`; of several equal ones, the last.
    /// `compare` has to decide each item against the greatest of those
    /// before it.
    fn max_by<F>(self, compare: F) -> (r: Option<Self::Item>) where F: Comparator<Self::Item>
        requires
            self.safe(best_ready(compare, true), unbroken()),
        ensures
            self.exact() ==> r == best_of(compare, true, None, self.items()),
    {
        proof {
            lemma_best_oracle::<Self::Item, F>(compare, true);
            lemma_best_run::<Self::Item, F>(compare, true, None, self.items());
        }
        let (_, best) = self.try_for_each(Best { compare, greatest: true, held: None });
        best.held
    }

    /// The least item; of several equal ones, the first.
    fn min(self) -> (r: Option<Self::Item>) where Self::Item: Ord
        requires
            self.safe(best_ready(Natural {  }, false), unbroken()),
        ensures
            self.exact() ==> r == best_of(Natural {  }, false, None, self.items()),
    {
        self.min_by(Natural {  })
    }

    /// The least item under `compare`; of several equal ones, the first.
    /// `compare` has to decide the least of the items so far against each
    /// item after them.
    fn min_by<F>(self, compare: F) -> (r: Option<Self::Item>) where F: Comparator<Self::Item>
        requires
            self.safe(best_ready(compare, false), unbroken()),
        ensures
            self.exact() ==> r == best_of(compare, false, None, self.items()),
    {
        proof {
            lemma_best_oracle::<Self::Item, F>(compare, false);
            lemma_best_run::<Self::Item, F>(compare, false, None, self.items());
        }
        let (_, best) = self.try_for_each(Best { compare, greatest: false, held: None });
        best.held
    }

    /// The first item. Like every operation it consumes the iterator: no
    /// second item can be asked for.
    fn next(self) -> (r: Option<Self::Item>)
        requires
            self.safe(unconditional(), first_going()),
        ensures
            self.exact() ==> r == (if self.items().len() == 0 {
                None
            } else {
                Some(self.items()[0])
            }),
    {
        proof {
            lemma_first_oracle::<Self::Item>();
        }
        let (signal, _) = self.try_for_each(First {  });
        match signal {
            ControlFlow::Continue(_) => None,
            ControlFlow::Break(item) => Some(item),
        }
    }

    /// The item at index `n`. Stops there.
    fn nth(self, n: usize) -> (r: Option<Self::Item>)
        requires
            self.safe(unconditional(), nth_going(n as nat)),
        ensures
            self.exact() ==> r == (if n < self.items().len() {
                Some(self.items()[n as int])
            } else {
                None
            }),
    {
        proof {
            lemma_nth_oracle::<Self::Item>(n as nat);
            lemma_nth_run::<Self::Item>(n as nat, self.items());
        }
        let (signal, _) = self.try_for_each(Nth { n });
        match signal {
            ControlFlow::Continue(_) => None,
            ControlFlow::Break(item) => Some(item),
        }
    }

    /// The index of the first item of which `f` holds. Stops there; `f`
    /// has to accept the items up to that one, and the index of each item
    /// that is passed has to fit into a `usize`.
    fn position<F>(self, f: F) -> (r: Option<usize>) where F: UnaryFn<Self::Item, Output = bool>
        requires
            self.safe(position_ready(f), position_going(f)),
        ensures
            self.exact() ==> r == (match first_match(
                self.items(),
                |x: Self::Item| f.result(x),
            ) {
                Some(i) => Some(i as usize),
                None => None,
            }),
    {
        proof {
            lemma_position_oracle::<Self::Item, F>(f);
            lemma_position_run::<Self::Item, F>(f, 0, self.items());
        }
        let (signal, _) = self.try_for_each(Position { f, index: 0 });
        match signal {
            ControlFlow::Continue(_) => None,
            ControlFlow::Break(index) => Some(index),
        }
    }

    /// An iterator over the items after the first `n`.
    fn skip(self, n: usize) -> (r: Skip<Self>)
        ensures
            r.iter == self,
            r.n == n,
    {
        Skip { iter: self, n }
    }

    /// An iterator over the first `n` items. It stops the underlying
    /// traversal as soon as it has yielded them.
    fn take(self, n: usize) -> (r: Take<Self>)
        ensures
            r.iter == self,
            r.n == n,
    {
        Take { iter: self, n }
    }
}

} // verus!
