//! Filtering and mapping in one step.
use crate::consumer::{
    going_after, lemma_reaches, progress, readiness, ready_after, run, witness, Consumer,
};
use crate::func::UnaryFn;
use crate::iterator::InternalIterator;
use core::ops::ControlFlow;
use vstd::prelude::*;

verus! {

/// An iterator that yields what `f` maps the items of `iter` to, where that
/// is `Some`.
pub struct FilterMap<I, F> {
    pub iter: I,
    pub f: F,
}

/// Hands to `inner` what `f` maps each item to, where that is `Some`.
pub struct FilterMapConsumer<F, C> {
    pub f: F,
    pub inner: C,
}

impl<F, C: View> View for FilterMapConsumer<F, C> {
    type V = (F, C::V);

    open spec fn view(&self) -> (F, C::V) {
        (self.f, self.inner@)
    }
}

impl<T, U, F: UnaryFn<T, Output = Option<U>>, C: Consumer<U>> Consumer<T> for FilterMapConsumer<
    F,
    C,
> {
    type Break = C::Break;

    open spec fn ready(state: (F, C::V), item: T) -> bool {
        &&& state.0.accepts(item)
        &&& state.0.result(item) matches Some(mapped) ==> C::ready(state.1, mapped)
    }

    open spec fn step(state: (F, C::V), item: T) -> ((F, C::V), ControlFlow<C::Break>) {
        match state.0.result(item) {
            Some(mapped) => {
                let (next, signal) = C::step(state.1, mapped);
                ((state.0, next), signal)
            },
            None => (state, ControlFlow::Continue(())),
        }
    }

    fn accept(self, item: T) -> (out: (ControlFlow<C::Break>, Self)) {
        let mut f = self.f;
        match f.invoke(item) {
            Some(mapped) => {
                let (signal, inner) = self.inner.accept(mapped);
                (signal, FilterMapConsumer { f, inner })
            },
            None => (ControlFlow::Continue(()), FilterMapConsumer { f, inner: self.inner }),
        }
    }
}

/// What `f` maps `items` to, in order, leaving out each `None`.
pub open spec fn filter_map_items<T, U, F: UnaryFn<T, Output = Option<U>>>(
    f: F,
    items: Seq<T>,
) -> Seq<U>
    decreases items.len(),
{
    if items.len() == 0 {
        Seq::empty()
    } else {
        match f.result(items[0]) {
            Some(mapped) => seq![mapped] + filter_map_items(f, items.drop_first()),
            None => filter_map_items(f, items.drop_first()),
        }
    }
}

/// How long a filtering map goes on: as long as the consumer behind it
/// does, on what it has been handed.
pub open spec fn filter_map_going<T, U, F: UnaryFn<T, Output = Option<U>>>(
    f: F,
    going: spec_fn(Seq<U>) -> bool,
) -> spec_fn(Seq<T>) -> bool {
    |seen: Seq<T>| going(filter_map_items(f, seen))
}

/// What a filtering map asks for each item that it gets to: that `f`
/// accepts it and that, where `f` maps it to `Some`, the consumer behind it
/// is ready for what that holds.
pub open spec fn filter_map_ready<T, U, F: UnaryFn<T, Output = Option<U>>>(
    f: F,
    ready: spec_fn(Seq<U>, U) -> bool,
    going: spec_fn(Seq<U>) -> bool,
) -> spec_fn(Seq<T>, T) -> bool {
    |seen: Seq<T>, item: T|
        going(filter_map_items(f, seen)) ==> {
            &&& f.accepts(item)
            &&& f.result(item) matches Some(mapped) ==> ready(filter_map_items(f, seen), mapped)
        }
}

/// Feeding `items` to a `FilterMapConsumer` is feeding its inner consumer
/// what `f` maps them to, where that is `Some`.
pub proof fn lemma_filter_map_run<T, U, F: UnaryFn<T, Output = Option<U>>, C: Consumer<U>>(
    f: F,
    state: C::V,
    items: Seq<T>,
)
    ensures
        run::<T, FilterMapConsumer<F, C>>((f, state), items) == (
            (f, run::<U, C>(state, filter_map_items(f, items)).0),
            run::<U, C>(state, filter_map_items(f, items)).1,
        ),
    decreases items.len(),
{
    if items.len() > 0 {
        let rest = items.drop_first();
        match f.result(items[0]) {
            Some(mapped) => {
                let chosen = seq![mapped] + filter_map_items(f, rest);
                assert(chosen[0] == mapped);
                assert(chosen.drop_first() =~= filter_map_items(f, rest));
                lemma_filter_map_run::<T, U, F, C>(f, C::step(state, mapped).0, rest);
            },
            None => {
                lemma_filter_map_run::<T, U, F, C>(f, state, rest);
            },
        }
    }
}

/// What a `FilterMapConsumer` is ready for and how long it goes on.
pub proof fn lemma_filter_map_oracle<T, U, F: UnaryFn<T, Output = Option<U>>, C: Consumer<U>>(
    f: F,
    state: C::V,
)
    ensures
        readiness::<T, FilterMapConsumer<F, C>>((f, state)) == filter_map_ready(
            f,
            readiness::<U, C>(state),
            progress::<U, C>(state),
        ),
        progress::<T, FilterMapConsumer<F, C>>((f, state)) == filter_map_going(
            f,
            progress::<U, C>(state),
        ),
{
    let ready = filter_map_ready(f, readiness::<U, C>(state), progress::<U, C>(state));
    let going = filter_map_going(f, progress::<U, C>(state));
    assert forall|seen: Seq<T>, item: T| #[trigger]
        ready_after::<T, FilterMapConsumer<F, C>>((f, state), seen, item) == ready(seen, item) by {
        lemma_filter_map_run::<T, U, F, C>(f, state, seen);
    }
    assert forall|seen: Seq<T>| #[trigger]
        going_after::<T, FilterMapConsumer<F, C>>((f, state), seen) == going(seen) by {
        lemma_filter_map_run::<T, U, F, C>(f, state, seen);
    }
    assert(readiness::<T, FilterMapConsumer<F, C>>((f, state)) =~= ready);
    assert(progress::<T, FilterMapConsumer<F, C>>((f, state)) =~= going);
}

impl<U, I, F> InternalIterator for FilterMap<I, F> where
    I: InternalIterator,
    F: UnaryFn<I::Item, Output = Option<U>>,
 {
    type Item = U;

    open spec fn items(&self) -> Seq<U> {
        filter_map_items(self.f, self.iter.items())
    }

    open spec fn safe(
        &self,
        ready: spec_fn(Seq<U>, U) -> bool,
        going: spec_fn(Seq<U>) -> bool,
    ) -> bool {
        self.iter.safe(filter_map_ready(self.f, ready, going), filter_map_going(self.f, going))
    }

    open spec fn exact(&self) -> bool {
        self.iter.exact()
    }

    fn try_for_each<C: Consumer<U>>(self, consumer: C) -> (out: (ControlFlow<C::Break>, C)) {
        let ghost f = self.f;
        let ghost start = consumer@;
        proof {
            lemma_filter_map_oracle::<I::Item, U, F, C>(f, start);
            lemma_filter_map_run::<I::Item, U, F, C>(f, start, self.iter.items());
        }
        let (signal, wrapped) = self.iter.try_for_each(
            FilterMapConsumer { f: self.f, inner: consumer },
        );
        proof {
            let seen = witness::<I::Item, FilterMapConsumer<F, C>>(
                (f, start),
                wrapped@,
                signal,
            );
            lemma_filter_map_run::<I::Item, U, F, C>(f, start, seen);
            lemma_reaches::<U, C>(start, filter_map_items(f, seen));
        }
        (signal, wrapped.inner)
    }
}

} // verus!
