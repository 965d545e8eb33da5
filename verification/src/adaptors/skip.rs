//! All but the first items.
use crate::consumer::{
    going_after, lemma_reaches, progress, readiness, ready_after, run, witness, Consumer,
};
use crate::iterator::InternalIterator;
use core::ops::ControlFlow;
use vstd::prelude::*;

verus! {

/// An iterator that leaves out the first `n` items of `iter`.
pub struct Skip<I> {
    pub iter: I,
    pub n: usize,
}

/// Lets `n` items pass and hands those after them to `inner`.
pub struct SkipConsumer<C> {
    pub n: usize,
    pub inner: C,
}

impl<C: View> View for SkipConsumer<C> {
    type V = (nat, C::V);

    open spec fn view(&self) -> (nat, C::V) {
        (self.n as nat, self.inner@)
    }
}

impl<T, C: Consumer<T>> Consumer<T> for SkipConsumer<C> {
    type Break = C::Break;

    open spec fn ready(state: (nat, C::V), item: T) -> bool {
        state.0 == 0 ==> C::ready(state.1, item)
    }

    open spec fn step(state: (nat, C::V), item: T) -> ((nat, C::V), ControlFlow<C::Break>) {
        if state.0 == 0 {
            let (next, signal) = C::step(state.1, item);
            ((state.0, next), signal)
        } else {
            (((state.0 - 1) as nat, state.1), ControlFlow::Continue(()))
        }
    }

    fn accept(self, item: T) -> (out: (ControlFlow<C::Break>, Self)) {
        if self.n == 0 {
            let (signal, inner) = self.inner.accept(item);
            (signal, SkipConsumer { n: 0, inner })
        } else {
            (ControlFlow::Continue(()), SkipConsumer { n: self.n - 1, inner: self.inner })
        }
    }
}

/// `items` without its first `n`, or without all of them where there are
/// fewer.
pub open spec fn skip_items<T>(n: nat, items: Seq<T>) -> Seq<T> {
    if n <= items.len() {
        items.skip(n as int)
    } else {
        Seq::empty()
    }
}

/// How long a skip goes on: as long as the consumer behind it does, on what
/// it has been handed.
pub open spec fn skip_going<T>(n: nat, going: spec_fn(Seq<T>) -> bool) -> spec_fn(Seq<T>) -> bool {
    |seen: Seq<T>| going(skip_items(n, seen))
}

/// What a skip asks for each item that it gets to: once `n` items have
/// passed, that the consumer behind it is ready for it.
pub open spec fn skip_ready<T>(
    n: nat,
    ready: spec_fn(Seq<T>, T) -> bool,
    going: spec_fn(Seq<T>) -> bool,
) -> spec_fn(Seq<T>, T) -> bool {
    |seen: Seq<T>, item: T|
        going(skip_items(n, seen)) && n <= seen.len() ==> ready(skip_items(n, seen), item)
}

/// Feeding `items` to a `SkipConsumer` is feeding its inner consumer those
/// after the first `n`; what is left to skip after them is what they have
/// left of `n`.
pub proof fn lemma_skip_run<T, C: Consumer<T>>(n: nat, state: C::V, items: Seq<T>)
    ensures
        run::<T, SkipConsumer<C>>((n, state), items) == (
            (
                if n <= items.len() {
                    0nat
                } else {
                    (n - items.len()) as nat
                },
                run::<T, C>(state, skip_items(n, items)).0,
            ),
            run::<T, C>(state, skip_items(n, items)).1,
        ),
    decreases items.len(),
{
    if items.len() > 0 {
        let rest = items.drop_first();
        if n == 0 {
            assert(skip_items(0, items) =~= items);
            assert(skip_items(0, rest) =~= rest);
            lemma_skip_run::<T, C>(0, C::step(state, items[0]).0, rest);
        } else {
            assert(skip_items(n, items) =~= skip_items((n - 1) as nat, rest));
            lemma_skip_run::<T, C>((n - 1) as nat, state, rest);
        }
    } else {
        assert(skip_items(n, items) =~= Seq::<T>::empty());
    }
}

/// What a `SkipConsumer` is ready for and how long it goes on.
pub proof fn lemma_skip_oracle<T, C: Consumer<T>>(n: nat, state: C::V)
    ensures
        readiness::<T, SkipConsumer<C>>((n, state)) == skip_ready(
            n,
            readiness::<T, C>(state),
            progress::<T, C>(state),
        ),
        progress::<T, SkipConsumer<C>>((n, state)) == skip_going(n, progress::<T, C>(state)),
{
    let ready = skip_ready(n, readiness::<T, C>(state), progress::<T, C>(state));
    let going = skip_going(n, progress::<T, C>(state));
    assert forall|seen: Seq<T>, item: T| #[trigger]
        ready_after::<T, SkipConsumer<C>>((n, state), seen, item) == ready(seen, item) by {
        lemma_skip_run::<T, C>(n, state, seen);
    }
    assert forall|seen: Seq<T>| #[trigger]
        going_after::<T, SkipConsumer<C>>((n, state), seen) == going(seen) by {
        lemma_skip_run::<T, C>(n, state, seen);
    }
    assert(readiness::<T, SkipConsumer<C>>((n, state)) =~= ready);
    assert(progress::<T, SkipConsumer<C>>((n, state)) =~= going);
}

impl<I: InternalIterator> InternalIterator for Skip<I> {
    type Item = I::Item;

    open spec fn items(&self) -> Seq<I::Item> {
        skip_items(self.n as nat, self.iter.items())
    }

    open spec fn safe(
        &self,
        ready: spec_fn(Seq<I::Item>, I::Item) -> bool,
        going: spec_fn(Seq<I::Item>) -> bool,
    ) -> bool {
        self.iter.safe(skip_ready(self.n as nat, ready, going), skip_going(self.n as nat, going))
    }

    open spec fn exact(&self) -> bool {
        self.iter.exact()
    }

    fn try_for_each<C: Consumer<I::Item>>(self, consumer: C) -> (out: (
        ControlFlow<C::Break>,
        C,
    )) {
        let ghost n = self.n as nat;
        let ghost start = consumer@;
        proof {
            lemma_skip_oracle::<I::Item, C>(n, start);
            lemma_skip_run::<I::Item, C>(n, start, self.iter.items());
        }
        let (signal, wrapped) = self.iter.try_for_each(SkipConsumer { n: self.n, inner: consumer });
        proof {
            let seen = witness::<I::Item, SkipConsumer<C>>((n, start), wrapped@, signal);
            lemma_skip_run::<I::Item, C>(n, start, seen);
            lemma_reaches::<I::Item, C>(start, skip_items(n, seen));
        }
        (signal, wrapped.inner)
    }
}

} // verus!
