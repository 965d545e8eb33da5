//! The first items only.
use crate::consumer::{
    going_after, lemma_reaches, progress, readiness, ready_after, run, witness, Consumer,
};
use crate::iterator::InternalIterator;
use core::ops::ControlFlow;
use vstd::prelude::*;

verus! {

/// An iterator that yields the first `n` items of `iter` and no more.
pub struct Take<I> {
    pub iter: I,
    pub n: usize,
}

/// Why a `TakeConsumer` stopped the traversal.
pub enum Stop<B> {
    /// It has handed on as many items as it was to take.
    Exhausted,
    /// The consumer behind it asked to stop, with this value.
    Requested(B),
}

/// Hands `n` items to `inner` and then stops the traversal, unless `inner`
/// stops it before.
pub struct TakeConsumer<C> {
    pub n: usize,
    pub inner: C,
}

impl<C: View> View for TakeConsumer<C> {
    type V = (nat, C::V);

    open spec fn view(&self) -> (nat, C::V) {
        (self.n as nat, self.inner@)
    }
}

impl<T, C: Consumer<T>> Consumer<T> for TakeConsumer<C> {
    type Break = Stop<C::Break>;

    open spec fn ready(state: (nat, C::V), item: T) -> bool {
        &&& state.0 > 0
        &&& C::ready(state.1, item)
    }

    open spec fn step(state: (nat, C::V), item: T) -> (
        (nat, C::V),
        ControlFlow<Stop<C::Break>>,
    ) {
        let left = (state.0 - 1) as nat;
        let (next, signal) = C::step(state.1, item);
        match signal {
            ControlFlow::Break(value) => ((left, next), ControlFlow::Break(Stop::Requested(value))),
            ControlFlow::Continue(_) => if left == 0 {
                ((left, next), ControlFlow::Break(Stop::Exhausted))
            } else {
                ((left, next), ControlFlow::Continue(()))
            },
        }
    }

    /// Hands the item on. A `Break` from `inner` goes out as it is; after
    /// the last item to take, a `Continue` from `inner` becomes the `Break`
    /// that stops the traversal.
    fn accept(self, item: T) -> (out: (ControlFlow<Stop<C::Break>>, Self)) {
        let n = self.n - 1;
        let (signal, inner) = self.inner.accept(item);
        let next = TakeConsumer { n, inner };
        match signal {
            ControlFlow::Break(value) => (ControlFlow::Break(Stop::Requested(value)), next),
            ControlFlow::Continue(_) => if n == 0 {
                (ControlFlow::Break(Stop::Exhausted), next)
            } else {
                (ControlFlow::Continue(()), next)
            },
        }
    }
}

/// The first `n` of `items`, or all of them where there are fewer.
pub open spec fn take_items<T>(n: nat, items: Seq<T>) -> Seq<T> {
    if n <= items.len() {
        items.take(n as int)
    } else {
        items
    }
}

/// What a `Take` returns for the signal that its consumer came back with.
pub open spec fn unwrap_stop<B>(signal: ControlFlow<Stop<B>>) -> ControlFlow<B> {
    match signal {
        ControlFlow::Continue(_) => ControlFlow::Continue(()),
        ControlFlow::Break(Stop::Exhausted) => ControlFlow::Continue(()),
        ControlFlow::Break(Stop::Requested(value)) => ControlFlow::Break(value),
    }
}

/// How long a take goes on: as long as it has handed on fewer than `n`
/// items and the consumer behind it goes on.
pub open spec fn take_going<T>(n: nat, going: spec_fn(Seq<T>) -> bool) -> spec_fn(Seq<T>) -> bool {
    |seen: Seq<T>| seen.len() < n && going(seen)
}

/// What a take asks for each item that it gets to: that the consumer
/// behind it is ready for it.
pub open spec fn take_ready<T>(
    n: nat,
    ready: spec_fn(Seq<T>, T) -> bool,
    going: spec_fn(Seq<T>) -> bool,
) -> spec_fn(Seq<T>, T) -> bool {
    |seen: Seq<T>, item: T| seen.len() < n && going(seen) ==> ready(seen, item)
}

/// Feeding `items` to a `TakeConsumer` that is to take `n > 0` is feeding
/// its inner consumer the first `n` of them. It goes on as long as there
/// were fewer than `n` and the inner consumer goes on.
pub proof fn lemma_take_run<T, C: Consumer<T>>(n: nat, state: C::V, items: Seq<T>)
    requires
        n > 0,
    ensures
        run::<T, TakeConsumer<C>>((n, state), items).0.1 == run::<T, C>(
            state,
            take_items(n, items),
        ).0,
        unwrap_stop(run::<T, TakeConsumer<C>>((n, state), items).1) == run::<T, C>(
            state,
            take_items(n, items),
        ).1,
        going_after::<T, TakeConsumer<C>>((n, state), items) == (items.len() < n && going_after::<
            T,
            C,
        >(state, items)),
        going_after::<T, TakeConsumer<C>>((n, state), items) ==> run::<T, TakeConsumer<C>>(
            (n, state),
            items,
        ).0.0 == n - items.len(),
    decreases items.len(),
{
    if items.len() > 0 {
        let rest = items.drop_first();
        let taken = take_items(n, items);
        let (next, signal) = C::step(state, items[0]);
        assert(taken.len() > 0 && taken[0] == items[0]);
        match signal {
            ControlFlow::Break(value) => {
                assert(run::<T, C>(state, taken) == (next, signal));
            },
            ControlFlow::Continue(unit) => {
                assert(unit == ());
                assert(run::<T, C>(state, taken) == run::<T, C>(next, taken.drop_first()));
                if n == 1 {
                    assert(taken.drop_first() =~= Seq::<T>::empty());
                    assert(run::<T, C>(next, taken.drop_first()) == (
                        next,
                        ControlFlow::<C::Break, ()>::Continue(()),
                    ));
                } else {
                    assert(taken.drop_first() =~= take_items((n - 1) as nat, rest));
                    lemma_take_run::<T, C>((n - 1) as nat, next, rest);
                }
            },
        }
    }
}

/// What a `TakeConsumer` that is to take `n > 0` is ready for and how long
/// it goes on.
pub proof fn lemma_take_oracle<T, C: Consumer<T>>(n: nat, state: C::V)
    requires
        n > 0,
    ensures
        readiness::<T, TakeConsumer<C>>((n, state)) == take_ready(
            n,
            readiness::<T, C>(state),
            progress::<T, C>(state),
        ),
        progress::<T, TakeConsumer<C>>((n, state)) == take_going(n, progress::<T, C>(state)),
{
    let ready = take_ready(n, readiness::<T, C>(state), progress::<T, C>(state));
    let going = take_going(n, progress::<T, C>(state));
    assert forall|seen: Seq<T>, item: T| #[trigger]
        ready_after::<T, TakeConsumer<C>>((n, state), seen, item) == ready(seen, item) by {
        lemma_take_run::<T, C>(n, state, seen);
        if seen.len() < n {
            assert(take_items(n, seen) =~= seen);
        }
    }
    assert forall|seen: Seq<T>| #[trigger]
        going_after::<T, TakeConsumer<C>>((n, state), seen) == going(seen) by {
        lemma_take_run::<T, C>(n, state, seen);
    }
    assert(readiness::<T, TakeConsumer<C>>((n, state)) =~= ready);
    assert(progress::<T, TakeConsumer<C>>((n, state)) =~= going);
}

impl<I: InternalIterator> InternalIterator for Take<I> {
    type Item = I::Item;

    open spec fn items(&self) -> Seq<I::Item> {
        take_items(self.n as nat, self.iter.items())
    }

    /// Nothing is asked where there is nothing to take. Otherwise the
    /// underlying iterator has to be safe for a consumer that stops after
    /// `n` items: of what lies behind them nothing is asked.
    open spec fn safe(
        &self,
        ready: spec_fn(Seq<I::Item>, I::Item) -> bool,
        going: spec_fn(Seq<I::Item>) -> bool,
    ) -> bool {
        self.n == 0 || self.iter.safe(
            take_ready(self.n as nat, ready, going),
            take_going(self.n as nat, going),
        )
    }

    open spec fn exact(&self) -> bool {
        self.n == 0 || self.iter.exact()
    }

    /// With nothing to take, returns at once and leaves `iter` alone.
    /// Otherwise drives `iter` with a consumer that stops it after the
    /// `n`-th item, and tells that stop from one that `consumer` asked for.
    fn try_for_each<C: Consumer<I::Item>>(self, consumer: C) -> (out: (
        ControlFlow<C::Break>,
        C,
    )) {
        let ghost n = self.n as nat;
        let ghost start = consumer@;
        if self.n == 0 {
            proof {
                assert(take_items(0, self.iter.items()) =~= Seq::<I::Item>::empty());
                lemma_reaches::<I::Item, C>(start, Seq::empty());
            }
            return (ControlFlow::Continue(()), consumer);
        }
        proof {
            lemma_take_oracle::<I::Item, C>(n, start);
            lemma_take_run::<I::Item, C>(n, start, self.iter.items());
        }
        let (signal, wrapped) = self.iter.try_for_each(TakeConsumer { n: self.n, inner: consumer });
        proof {
            let seen = witness::<I::Item, TakeConsumer<C>>((n, start), wrapped@, signal);
            lemma_take_run::<I::Item, C>(n, start, seen);
            lemma_reaches::<I::Item, C>(start, take_items(n, seen));
        }
        match signal {
            ControlFlow::Continue(_) => (ControlFlow::Continue(()), wrapped.inner),
            ControlFlow::Break(Stop::Exhausted) => (ControlFlow::Continue(()), wrapped.inner),
            ControlFlow::Break(Stop::Requested(value)) => (
                ControlFlow::Break(value),
                wrapped.inner,
            ),
        }
    }
}

} // verus!
