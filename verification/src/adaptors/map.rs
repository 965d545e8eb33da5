//! Items transformed by a function.
use crate::consumer::{
    going_after, lemma_reaches, progress, readiness, ready_after, run, witness, Consumer,
};
use crate::func::UnaryFn;
use crate::iterator::InternalIterator;
use core::ops::ControlFlow;
use vstd::prelude::*;

verus! {

/// An iterator that yields what `f` maps the items of `iter` to.
pub struct Mapped<I, F> {
    pub iter: I,
    pub f: F,
}

/// Hands to `inner` what `f` maps each item to.
pub struct MapConsumer<F, C> {
    pub f: F,
    pub inner: C,
}

impl<F, C: View> View for MapConsumer<F, C> {
    type V = (F, C::V);

    open spec fn view(&self) -> (F, C::V) {
        (self.f, self.inner@)
    }
}

impl<T, F: UnaryFn<T>, C: Consumer<F::Output>> Consumer<T> for MapConsumer<F, C> {
    type Break = C::Break;

    open spec fn ready(state: (F, C::V), item: T) -> bool {
        &&& state.0.accepts(item)
        &&& C::ready(state.1, state.0.result(item))
    }

    open spec fn step(state: (F, C::V), item: T) -> ((F, C::V), ControlFlow<C::Break>) {
        let (next, signal) = C::step(state.1, state.0.result(item));
        ((state.0, next), signal)
    }

    /// Calls `f` on the item, once, and hands the result on.
    fn accept(self, item: T) -> (out: (ControlFlow<C::Break>, Self)) {
        let mut f = self.f;
        let mapped = f.invoke(item);
        let (signal, inner) = self.inner.accept(mapped);
        (signal, MapConsumer { f, inner })
    }
}

/// What `f` maps `items` to.
pub open spec fn map_items<T, F: UnaryFn<T>>(f: F, items: Seq<T>) -> Seq<F::Output> {
    items.map_values(|x: T| f.result(x))
}

/// How long a map goes on: as long as the consumer behind it does, on what
/// it has been handed.
pub open spec fn map_going<T, F: UnaryFn<T>>(
    f: F,
    going: spec_fn(Seq<F::Output>) -> bool,
) -> spec_fn(Seq<T>) -> bool {
    |seen: Seq<T>| going(map_items(f, seen))
}

/// What a map asks for each item that it gets to: that `f` accepts it and
/// that the consumer behind it is ready for what `f` maps it to.
pub open spec fn map_ready<T, F: UnaryFn<T>>(
    f: F,
    ready: spec_fn(Seq<F::Output>, F::Output) -> bool,
    going: spec_fn(Seq<F::Output>) -> bool,
) -> spec_fn(Seq<T>, T) -> bool {
    |seen: Seq<T>, item: T|
        going(map_items(f, seen)) ==> f.accepts(item) && ready(
            map_items(f, seen),
            f.result(item),
        )
}

/// Feeding `items` to a `MapConsumer` is feeding its inner consumer what
/// `f` maps them to.
pub proof fn lemma_map_run<T, F: UnaryFn<T>, C: Consumer<F::Output>>(
    f: F,
    state: C::V,
    items: Seq<T>,
)
    ensures
        run::<T, MapConsumer<F, C>>((f, state), items) == (
            (f, run::<F::Output, C>(state, map_items(f, items)).0),
            run::<F::Output, C>(state, map_items(f, items)).1,
        ),
    decreases items.len(),
{
    if items.len() > 0 {
        let rest = items.drop_first();
        let (next, signal) = C::step(state, f.result(items[0]));
        assert(map_items(f, items).drop_first() =~= map_items(f, rest));
        lemma_map_run::<T, F, C>(f, next, rest);
    }
}

/// What a `MapConsumer` is ready for and how long it goes on.
pub proof fn lemma_map_oracle<T, F: UnaryFn<T>, C: Consumer<F::Output>>(f: F, state: C::V)
    ensures
        readiness::<T, MapConsumer<F, C>>((f, state)) == map_ready(
            f,
            readiness::<F::Output, C>(state),
            progress::<F::Output, C>(state),
        ),
        progress::<T, MapConsumer<F, C>>((f, state)) == map_going(
            f,
            progress::<F::Output, C>(state),
        ),
{
    let ready = map_ready(f, readiness::<F::Output, C>(state), progress::<F::Output, C>(state));
    let going = map_going(f, progress::<F::Output, C>(state));
    assert forall|seen: Seq<T>, item: T| #[trigger]
        ready_after::<T, MapConsumer<F, C>>((f, state), seen, item) == ready(seen, item) by {
        lemma_map_run::<T, F, C>(f, state, seen);
    }
    assert forall|seen: Seq<T>| #[trigger]
        going_after::<T, MapConsumer<F, C>>((f, state), seen) == going(seen) by {
        lemma_map_run::<T, F, C>(f, state, seen);
    }
    assert(readiness::<T, MapConsumer<F, C>>((f, state)) =~= ready);
    assert(progress::<T, MapConsumer<F, C>>((f, state)) =~= going);
}

impl<I: InternalIterator, F: UnaryFn<I::Item>> InternalIterator for Mapped<I, F> {
    type Item = F::Output;

    open spec fn items(&self) -> Seq<F::Output> {
        map_items(self.f, self.iter.items())
    }

    open spec fn safe(
        &self,
        ready: spec_fn(Seq<F::Output>, F::Output) -> bool,
        going: spec_fn(Seq<F::Output>) -> bool,
    ) -> bool {
        self.iter.safe(map_ready(self.f, ready, going), map_going(self.f, going))
    }

    open spec fn exact(&self) -> bool {
        self.iter.exact()
    }

    fn try_for_each<C: Consumer<F::Output>>(self, consumer: C) -> (out: (
        ControlFlow<C::Break>,
        C,
    )) {
        let ghost f = self.f;
        let ghost start = consumer@;
        proof {
            lemma_map_oracle::<I::Item, F, C>(f, start);
            lemma_map_run::<I::Item, F, C>(f, start, self.iter.items());
        }
        let (signal, wrapped) = self.iter.try_for_each(MapConsumer { f: self.f, inner: consumer });
        proof {
            let seen = witness::<I::Item, MapConsumer<F, C>>((f, start), wrapped@, signal);
            lemma_map_run::<I::Item, F, C>(f, start, seen);
            lemma_reaches::<F::Output, C>(start, map_items(f, seen));
        }
        (signal, wrapped.inner)
    }
}

} // verus!
