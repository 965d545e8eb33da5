//! Mapping each item to an iterator and yielding what those yield.
use crate::consumer::{
    going_after, going_behind, lemma_oracle_behind, lemma_reaches, lemma_run_concat, progress,
    readiness, ready_after, ready_behind, run, witness, Consumer,
};
use crate::convert::IntoInternalIterator;
use crate::func::UnaryFn;
use crate::iterator::InternalIterator;
use core::ops::ControlFlow;
use vstd::prelude::*;

verus! {

/// An iterator that maps each item of `iter` to an iterator and yields the
/// items of those, in order.
pub struct FlatMap<I, F> {
    pub iter: I,
    pub f: F,
}

/// Drives with `inner` the iterator that `f` maps each item to.
pub struct FlatMapConsumer<F, C> {
    pub f: F,
    pub inner: C,
}

impl<F, C: View> View for FlatMapConsumer<F, C> {
    type V = (F, C::V);

    open spec fn view(&self) -> (F, C::V) {
        (self.f, self.inner@)
    }
}

/// Whether `f` accepts `item` and maps it to an exact iterator that may be
/// driven by a consumer that is ready and goes on as `ready` and `going`
/// tell.
///
/// The inner iterator has to be exact because the step of a consumer is a
/// function of its state and the item: what an inner traversal leaves of
/// the consumer behind the map has to follow from the item that the map was
/// handed. An iterator that does not tell its items, such as a bridged
/// conventional one, leaves that open.
pub open spec fn expands<T, U: IntoInternalIterator, F: UnaryFn<T, Output = U>>(
    f: F,
    item: T,
    ready: spec_fn(Seq<U::Item>, U::Item) -> bool,
    going: spec_fn(Seq<U::Item>) -> bool,
) -> bool {
    &&& f.accepts(item)
    &&& f.result(item).into_exact()
    &&& f.result(item).into_safe(ready, going)
}

impl<T, U: IntoInternalIterator, F: UnaryFn<T, Output = U>, C: Consumer<U::Item>> Consumer<
    T,
> for FlatMapConsumer<F, C> {
    type Break = C::Break;

    open spec fn ready(state: (F, C::V), item: T) -> bool {
        expands(
            state.0,
            item,
            readiness::<U::Item, C>(state.1),
            progress::<U::Item, C>(state.1),
        )
    }

    open spec fn step(state: (F, C::V), item: T) -> ((F, C::V), ControlFlow<C::Break>) {
        let (next, signal) = run::<U::Item, C>(state.1, state.0.result(item).into_items());
        ((state.0, next), signal)
    }

    /// A `Break` from the inner traversal is the answer to the outer one; an
    /// inner traversal that comes to its end lets the outer one go on.
    fn accept(self, item: T) -> (out: (ControlFlow<C::Break>, Self)) {
        let mut f = self.f;
        let sub = f.invoke(item).into_internal_iter();
        let (signal, inner) = sub.try_for_each(self.inner);
        (signal, FlatMapConsumer { f, inner })
    }
}

/// The items of the iterators that `f` maps `items` to, one after the other.
pub open spec fn flat_map_items<T, U: IntoInternalIterator, F: UnaryFn<T, Output = U>>(
    f: F,
    items: Seq<T>,
) -> Seq<U::Item>
    decreases items.len(),
{
    if items.len() == 0 {
        Seq::empty()
    } else {
        f.result(items[0]).into_items() + flat_map_items(f, items.drop_first())
    }
}

/// How long a flattening map goes on: as long as the consumer behind it
/// does, on what it has been handed.
pub open spec fn flat_map_going<T, U: IntoInternalIterator, F: UnaryFn<T, Output = U>>(
    f: F,
    going: spec_fn(Seq<U::Item>) -> bool,
) -> spec_fn(Seq<T>) -> bool {
    |seen: Seq<T>| going(flat_map_items(f, seen))
}

/// What a flattening map asks for each item that it gets to: that `f`
/// accepts it and maps it to an exact iterator, and that this iterator is
/// safe for the consumer behind the map as it is by then.
pub open spec fn flat_map_ready<T, U: IntoInternalIterator, F: UnaryFn<T, Output = U>>(
    f: F,
    ready: spec_fn(Seq<U::Item>, U::Item) -> bool,
    going: spec_fn(Seq<U::Item>) -> bool,
) -> spec_fn(Seq<T>, T) -> bool {
    |seen: Seq<T>, item: T|
        going(flat_map_items(f, seen)) ==> expands(
            f,
            item,
            ready_behind(flat_map_items(f, seen), ready),
            going_behind(flat_map_items(f, seen), going),
        )
}

/// Feeding `items` to a `FlatMapConsumer` is feeding its inner consumer the
/// items of the iterators that `f` maps them to.
pub proof fn lemma_flat_map_run<
    T,
    U: IntoInternalIterator,
    F: UnaryFn<T, Output = U>,
    C: Consumer<U::Item>,
>(f: F, state: C::V, items: Seq<T>)
    ensures
        run::<T, FlatMapConsumer<F, C>>((f, state), items) == (
            (f, run::<U::Item, C>(state, flat_map_items(f, items)).0),
            run::<U::Item, C>(state, flat_map_items(f, items)).1,
        ),
    decreases items.len(),
{
    if items.len() > 0 {
        let rest = items.drop_first();
        let head = f.result(items[0]).into_items();
        let (next, signal) = run::<U::Item, C>(state, head);
        lemma_run_concat::<U::Item, C>(state, head, flat_map_items(f, rest));
        lemma_flat_map_run::<T, U, F, C>(f, next, rest);
        match signal {
            ControlFlow::Break(value) => {},
            ControlFlow::Continue(unit) => {
                assert(unit == ());
            },
        }
    }
}

/// What a `FlatMapConsumer` is ready for and how long it goes on.
pub proof fn lemma_flat_map_oracle<
    T,
    U: IntoInternalIterator,
    F: UnaryFn<T, Output = U>,
    C: Consumer<U::Item>,
>(f: F, state: C::V)
    ensures
        readiness::<T, FlatMapConsumer<F, C>>((f, state)) == flat_map_ready(
            f,
            readiness::<U::Item, C>(state),
            progress::<U::Item, C>(state),
        ),
        progress::<T, FlatMapConsumer<F, C>>((f, state)) == flat_map_going(
            f,
            progress::<U::Item, C>(state),
        ),
{
    let ready = flat_map_ready(
        f,
        readiness::<U::Item, C>(state),
        progress::<U::Item, C>(state),
    );
    let going = flat_map_going(f, progress::<U::Item, C>(state));
    assert forall|seen: Seq<T>, item: T| #[trigger]
        ready_after::<T, FlatMapConsumer<F, C>>((f, state), seen, item) == ready(seen, item) by {
        lemma_flat_map_run::<T, U, F, C>(f, state, seen);
        if going_after::<U::Item, C>(state, flat_map_items(f, seen)) {
            lemma_oracle_behind::<U::Item, C>(state, flat_map_items(f, seen));
        }
    }
    assert forall|seen: Seq<T>| #[trigger]
        going_after::<T, FlatMapConsumer<F, C>>((f, state), seen) == going(seen) by {
        lemma_flat_map_run::<T, U, F, C>(f, state, seen);
    }
    assert(readiness::<T, FlatMapConsumer<F, C>>((f, state)) =~= ready);
    assert(progress::<T, FlatMapConsumer<F, C>>((f, state)) =~= going);
}

impl<
    U: IntoInternalIterator,
    I: InternalIterator,
    F: UnaryFn<I::Item, Output = U>,
> InternalIterator for FlatMap<I, F> {
    type Item = U::Item;

    open spec fn items(&self) -> Seq<U::Item> {
        flat_map_items(self.f, self.iter.items())
    }

    open spec fn safe(
        &self,
        ready: spec_fn(Seq<U::Item>, U::Item) -> bool,
        going: spec_fn(Seq<U::Item>) -> bool,
    ) -> bool {
        self.iter.safe(flat_map_ready(self.f, ready, going), flat_map_going(self.f, going))
    }

    open spec fn exact(&self) -> bool {
        self.iter.exact()
    }

    fn try_for_each<C: Consumer<U::Item>>(self, consumer: C) -> (out: (
        ControlFlow<C::Break>,
        C,
    )) {
        let ghost f = self.f;
        let ghost start = consumer@;
        proof {
            lemma_flat_map_oracle::<I::Item, U, F, C>(f, start);
            lemma_flat_map_run::<I::Item, U, F, C>(f, start, self.iter.items());
        }
        let (signal, wrapped) = self.iter.try_for_each(
            FlatMapConsumer { f: self.f, inner: consumer },
        );
        proof {
            let seen = witness::<I::Item, FlatMapConsumer<F, C>>((f, start), wrapped@, signal);
            lemma_flat_map_run::<I::Item, U, F, C>(f, start, seen);
            lemma_reaches::<U::Item, C>(start, flat_map_items(f, seen));
        }
        (signal, wrapped.inner)
    }
}

} // verus!
