//! Looking at each item on its way through.
use crate::consumer::{
    going_after, lemma_reaches, progress, readiness, ready_after, run, witness, Consumer,
};
use crate::func::RefFn;
use crate::iterator::InternalIterator;
use core::ops::ControlFlow;
use vstd::prelude::*;

verus! {

/// An iterator that calls `f` with a reference to each item before yielding
/// it.
pub struct Inspect<I, F> {
    pub iter: I,
    pub f: F,
}

/// Shows each item to `f` and hands it to `inner`.
pub struct InspectConsumer<F, C> {
    pub f: F,
    pub inner: C,
}

impl<F, C: View> View for InspectConsumer<F, C> {
    type V = (F, C::V);

    open spec fn view(&self) -> (F, C::V) {
        (self.f, self.inner@)
    }
}

impl<T, F: RefFn<T>, C: Consumer<T>> Consumer<T> for InspectConsumer<F, C> {
    type Break = C::Break;

    open spec fn ready(state: (F, C::V), item: T) -> bool {
        &&& state.0.accepts_ref(item)
        &&& C::ready(state.1, item)
    }

    open spec fn step(state: (F, C::V), item: T) -> ((F, C::V), ControlFlow<C::Break>) {
        let (next, signal) = C::step(state.1, item);
        ((state.0, next), signal)
    }

    fn accept(self, item: T) -> (out: (ControlFlow<C::Break>, Self)) {
        let mut f = self.f;
        let _ = f.invoke_ref(&item);
        let (signal, inner) = self.inner.accept(item);
        (signal, InspectConsumer { f, inner })
    }
}

/// What an inspection asks for each item that it gets to: that `f` accepts
/// it and that the consumer behind it is ready for it.
pub open spec fn inspect_ready<T, F: RefFn<T>>(
    f: F,
    ready: spec_fn(Seq<T>, T) -> bool,
    going: spec_fn(Seq<T>) -> bool,
) -> spec_fn(Seq<T>, T) -> bool {
    |seen: Seq<T>, item: T| going(seen) ==> f.accepts_ref(item) && ready(seen, item)
}

/// Feeding `items` to an `InspectConsumer` is feeding them to its inner
/// consumer.
pub proof fn lemma_inspect_run<T, F: RefFn<T>, C: Consumer<T>>(f: F, state: C::V, items: Seq<T>)
    ensures
        run::<T, InspectConsumer<F, C>>((f, state), items) == (
            (f, run::<T, C>(state, items).0),
            run::<T, C>(state, items).1,
        ),
    decreases items.len(),
{
    if items.len() > 0 {
        lemma_inspect_run::<T, F, C>(f, C::step(state, items[0]).0, items.drop_first());
    }
}

/// What an `InspectConsumer` is ready for and how long it goes on.
pub proof fn lemma_inspect_oracle<T, F: RefFn<T>, C: Consumer<T>>(f: F, state: C::V)
    ensures
        readiness::<T, InspectConsumer<F, C>>((f, state)) == inspect_ready(
            f,
            readiness::<T, C>(state),
            progress::<T, C>(state),
        ),
        progress::<T, InspectConsumer<F, C>>((f, state)) == progress::<T, C>(state),
{
    let ready = inspect_ready(f, readiness::<T, C>(state), progress::<T, C>(state));
    let going = progress::<T, C>(state);
    assert forall|seen: Seq<T>, item: T| #[trigger]
        ready_after::<T, InspectConsumer<F, C>>((f, state), seen, item) == ready(seen, item) by {
        lemma_inspect_run::<T, F, C>(f, state, seen);
    }
    assert forall|seen: Seq<T>| #[trigger]
        going_after::<T, InspectConsumer<F, C>>((f, state), seen) == going(seen) by {
        lemma_inspect_run::<T, F, C>(f, state, seen);
    }
    assert(readiness::<T, InspectConsumer<F, C>>((f, state)) =~= ready);
    assert(progress::<T, InspectConsumer<F, C>>((f, state)) =~= going);
}

impl<I: InternalIterator, F: RefFn<I::Item>> InternalIterator for Inspect<I, F> {
    type Item = I::Item;

    open spec fn items(&self) -> Seq<I::Item> {
        self.iter.items()
    }

    open spec fn safe(
        &self,
        ready: spec_fn(Seq<I::Item>, I::Item) -> bool,
        going: spec_fn(Seq<I::Item>) -> bool,
    ) -> bool {
        self.iter.safe(inspect_ready(self.f, ready, going), going)
    }

    open spec fn exact(&self) -> bool {
        self.iter.exact()
    }

    fn try_for_each<C: Consumer<I::Item>>(self, consumer: C) -> (out: (
        ControlFlow<C::Break>,
        C,
    )) {
        let ghost f = self.f;
        let ghost start = consumer@;
        proof {
            lemma_inspect_oracle::<I::Item, F, C>(f, start);
            lemma_inspect_run::<I::Item, F, C>(f, start, self.iter.items());
        }
        let (signal, wrapped) = self.iter.try_for_each(
            InspectConsumer { f: self.f, inner: consumer },
        );
        proof {
            let seen = witness::<I::Item, InspectConsumer<F, C>>((f, start), wrapped@, signal);
            lemma_inspect_run::<I::Item, F, C>(f, start, seen);
            lemma_reaches::<I::Item, C>(start, seen);
        }
        (signal, wrapped.inner)
    }
}

} // verus!
