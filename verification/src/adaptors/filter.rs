//! Items that a predicate accepts.
use crate::consumer::{
    going_after, lemma_reaches, progress, readiness, ready_after, run, witness, Consumer,
};
use crate::func::RefFn;
use crate::iterator::InternalIterator;
use core::ops::ControlFlow;
use vstd::prelude::*;

verus! {

/// An iterator that yields the items of `iter` of which `predicate` holds.
pub struct Filter<I, F> {
    pub iter: I,
    pub predicate: F,
}

/// Hands to `inner` the items of which `predicate` holds and lets the
/// others pass.
pub struct FilterConsumer<P, C> {
    pub predicate: P,
    pub inner: C,
}

impl<P, C: View> View for FilterConsumer<P, C> {
    type V = (P, C::V);

    open spec fn view(&self) -> (P, C::V) {
        (self.predicate, self.inner@)
    }
}

impl<T, P: RefFn<T, Output = bool>, C: Consumer<T>> Consumer<T> for FilterConsumer<P, C> {
    type Break = C::Break;

    open spec fn ready(state: (P, C::V), item: T) -> bool {
        &&& state.0.accepts_ref(item)
        &&& state.0.result_ref(item) ==> C::ready(state.1, item)
    }

    open spec fn step(state: (P, C::V), item: T) -> ((P, C::V), ControlFlow<C::Break>) {
        if state.0.result_ref(item) {
            let (next, signal) = C::step(state.1, item);
            ((state.0, next), signal)
        } else {
            (state, ControlFlow::Continue(()))
        }
    }

    fn accept(self, item: T) -> (out: (ControlFlow<C::Break>, Self)) {
        let mut predicate = self.predicate;
        if predicate.invoke_ref(&item) {
            let (signal, inner) = self.inner.accept(item);
            (signal, FilterConsumer { predicate, inner })
        } else {
            (ControlFlow::Continue(()), FilterConsumer { predicate, inner: self.inner })
        }
    }
}

/// The items of `items` of which `predicate` holds.
pub open spec fn filter_items<T, P: RefFn<T, Output = bool>>(predicate: P, items: Seq<T>) -> Seq<
    T,
> {
    items.filter(|x: T| predicate.result_ref(x))
}

/// How long a filter goes on: as long as the consumer behind it does, on
/// what it has been handed.
pub open spec fn filter_going<T, P: RefFn<T, Output = bool>>(
    predicate: P,
    going: spec_fn(Seq<T>) -> bool,
) -> spec_fn(Seq<T>) -> bool {
    |seen: Seq<T>| going(filter_items(predicate, seen))
}

/// What a filter asks for each item that it gets to: that `predicate`
/// accepts it and that, where `predicate` holds of it, the consumer behind
/// it is ready for it.
pub open spec fn filter_ready<T, P: RefFn<T, Output = bool>>(
    predicate: P,
    ready: spec_fn(Seq<T>, T) -> bool,
    going: spec_fn(Seq<T>) -> bool,
) -> spec_fn(Seq<T>, T) -> bool {
    |seen: Seq<T>, item: T|
        going(filter_items(predicate, seen)) ==> {
            &&& predicate.accepts_ref(item)
            &&& predicate.result_ref(item) ==> ready(filter_items(predicate, seen), item)
        }
}

/// Feeding `items` to a `FilterConsumer` is feeding its inner consumer those
/// of which the predicate holds.
pub proof fn lemma_filter_run<T, P: RefFn<T, Output = bool>, C: Consumer<T>>(
    predicate: P,
    state: C::V,
    items: Seq<T>,
)
    ensures
        run::<T, FilterConsumer<P, C>>((predicate, state), items) == (
            (predicate, run::<T, C>(state, filter_items(predicate, items)).0),
            run::<T, C>(state, filter_items(predicate, items)).1,
        ),
    decreases items.len(),
{
    let kept = |x: T| predicate.result_ref(x);
    if items.len() > 0 {
        let rest = items.drop_first();
        items.lemma_filter_eq_filter_alt(kept);
        if predicate.result_ref(items[0]) {
            let chosen = seq![items[0]] + rest.filter(kept);
            assert(chosen[0] == items[0]);
            assert(chosen.drop_first() =~= rest.filter(kept));
            lemma_filter_run::<T, P, C>(predicate, C::step(state, items[0]).0, rest);
        } else {
            lemma_filter_run::<T, P, C>(predicate, state, rest);
        }
    }
}

/// What a `FilterConsumer` is ready for and how long it goes on.
pub proof fn lemma_filter_oracle<T, P: RefFn<T, Output = bool>, C: Consumer<T>>(
    predicate: P,
    state: C::V,
)
    ensures
        readiness::<T, FilterConsumer<P, C>>((predicate, state)) == filter_ready(
            predicate,
            readiness::<T, C>(state),
            progress::<T, C>(state),
        ),
        progress::<T, FilterConsumer<P, C>>((predicate, state)) == filter_going(
            predicate,
            progress::<T, C>(state),
        ),
{
    let ready = filter_ready(predicate, readiness::<T, C>(state), progress::<T, C>(state));
    let going = filter_going(predicate, progress::<T, C>(state));
    assert forall|seen: Seq<T>, item: T| #[trigger]
        ready_after::<T, FilterConsumer<P, C>>((predicate, state), seen, item) == ready(
            seen,
            item,
        ) by {
        lemma_filter_run::<T, P, C>(predicate, state, seen);
    }
    assert forall|seen: Seq<T>| #[trigger]
        going_after::<T, FilterConsumer<P, C>>((predicate, state), seen) == going(seen) by {
        lemma_filter_run::<T, P, C>(predicate, state, seen);
    }
    assert(readiness::<T, FilterConsumer<P, C>>((predicate, state)) =~= ready);
    assert(progress::<T, FilterConsumer<P, C>>((predicate, state)) =~= going);
}

impl<I: InternalIterator, P: RefFn<I::Item, Output = bool>> InternalIterator for Filter<I, P> {
    type Item = I::Item;

    open spec fn items(&self) -> Seq<I::Item> {
        filter_items(self.predicate, self.iter.items())
    }

    open spec fn safe(
        &self,
        ready: spec_fn(Seq<I::Item>, I::Item) -> bool,
        going: spec_fn(Seq<I::Item>) -> bool,
    ) -> bool {
        self.iter.safe(
            filter_ready(self.predicate, ready, going),
            filter_going(self.predicate, going),
        )
    }

    open spec fn exact(&self) -> bool {
        self.iter.exact()
    }

    fn try_for_each<C: Consumer<I::Item>>(self, consumer: C) -> (out: (
        ControlFlow<C::Break>,
        C,
    )) {
        let ghost predicate = self.predicate;
        let ghost start = consumer@;
        proof {
            lemma_filter_oracle::<I::Item, P, C>(predicate, start);
            lemma_filter_run::<I::Item, P, C>(predicate, start, self.iter.items());
        }
        let (signal, wrapped) = self.iter.try_for_each(
            FilterConsumer { predicate: self.predicate, inner: consumer },
        );
        proof {
            let seen = witness::<I::Item, FilterConsumer<P, C>>(
                (predicate, start),
                wrapped@,
                signal,
            );
            lemma_filter_run::<I::Item, P, C>(predicate, start, seen);
            lemma_reaches::<I::Item, C>(start, filter_items(predicate, seen));
        }
        (signal, wrapped.inner)
    }
}

} // verus!
