//! Items with their index.
use crate::consumer::{
    going_after, lemma_reaches, progress, readiness, ready_after, run, witness, Consumer,
};
use crate::iterator::InternalIterator;
use crate::terminal::{count_ready, unbroken};
use core::ops::ControlFlow;
use vstd::prelude::*;

verus! {

/// An iterator that yields each item together with its index.
pub struct Enumerate<I> {
    pub iter: I,
}

/// Hands each item to `inner` together with the number of items that came
/// before it.
pub struct EnumerateConsumer<C> {
    pub index: usize,
    pub inner: C,
}

impl<C: View> View for EnumerateConsumer<C> {
    type V = (nat, C::V);

    open spec fn view(&self) -> (nat, C::V) {
        (self.index as nat, self.inner@)
    }
}

impl<T, C: Consumer<(usize, T)>> Consumer<T> for EnumerateConsumer<C> {
    type Break = C::Break;

    open spec fn ready(state: (nat, C::V), item: T) -> bool {
        &&& state.0 < usize::MAX
        &&& C::ready(state.1, (state.0 as usize, item))
    }

    open spec fn step(state: (nat, C::V), item: T) -> ((nat, C::V), ControlFlow<C::Break>) {
        let (next, signal) = C::step(state.1, (state.0 as usize, item));
        ((state.0 + 1, next), signal)
    }

    fn accept(self, item: T) -> (out: (ControlFlow<C::Break>, Self)) {
        let (signal, inner) = self.inner.accept((self.index, item));
        (signal, EnumerateConsumer { index: self.index + 1, inner })
    }
}

/// `items`, each paired with its index counted from `start`.
pub open spec fn enumerate_items<T>(start: nat, items: Seq<T>) -> Seq<(usize, T)> {
    Seq::new(items.len(), |i: int| ((start + i) as usize, items[i]))
}

/// How long an enumeration goes on: as long as the consumer behind it does,
/// on what it has been handed.
pub open spec fn enumerate_going<T>(going: spec_fn(Seq<(usize, T)>) -> bool) -> spec_fn(
    Seq<T>,
) -> bool {
    |seen: Seq<T>| going(enumerate_items(0, seen))
}

/// What an enumeration asks for each item that it gets to: that the index
/// after it fits into a `usize`, and that the consumer behind it is ready
/// for the item with its index.
pub open spec fn enumerate_ready<T>(
    ready: spec_fn(Seq<(usize, T)>, (usize, T)) -> bool,
    going: spec_fn(Seq<(usize, T)>) -> bool,
) -> spec_fn(Seq<T>, T) -> bool {
    |seen: Seq<T>, item: T|
        going(enumerate_items(0, seen)) ==> {
            &&& seen.len() < usize::MAX
            &&& ready(enumerate_items(0, seen), (seen.len() as usize, item))
        }
}

/// Feeding `items` to an `EnumerateConsumer` is feeding its inner consumer
/// the items paired with their indices. As long as it goes on, it has
/// counted the items.
pub proof fn lemma_enumerate_run<T, C: Consumer<(usize, T)>>(
    index: nat,
    state: C::V,
    items: Seq<T>,
)
    ensures
        run::<T, EnumerateConsumer<C>>((index, state), items).0.1 == run::<(usize, T), C>(
            state,
            enumerate_items(index, items),
        ).0,
        run::<T, EnumerateConsumer<C>>((index, state), items).1 == run::<(usize, T), C>(
            state,
            enumerate_items(index, items),
        ).1,
        going_after::<T, EnumerateConsumer<C>>((index, state), items) ==> run::<
            T,
            EnumerateConsumer<C>,
        >((index, state), items).0.0 == index + items.len(),
    decreases items.len(),
{
    if items.len() > 0 {
        let rest = items.drop_first();
        let pairs = enumerate_items(index, items);
        assert(pairs[0] == (index as usize, items[0]));
        assert(pairs.drop_first() =~= enumerate_items(index + 1, rest));
        lemma_enumerate_run::<T, C>(index + 1, C::step(state, pairs[0]).0, rest);
    }
}

/// What an `EnumerateConsumer` that starts at zero is ready for and how
/// long it goes on.
pub proof fn lemma_enumerate_oracle<T, C: Consumer<(usize, T)>>(state: C::V)
    ensures
        readiness::<T, EnumerateConsumer<C>>((0, state)) == enumerate_ready(
            readiness::<(usize, T), C>(state),
            progress::<(usize, T), C>(state),
        ),
        progress::<T, EnumerateConsumer<C>>((0, state)) == enumerate_going(
            progress::<(usize, T), C>(state),
        ),
{
    let ready = enumerate_ready(
        readiness::<(usize, T), C>(state),
        progress::<(usize, T), C>(state),
    );
    let going = enumerate_going(progress::<(usize, T), C>(state));
    assert forall|seen: Seq<T>, item: T| #[trigger]
        ready_after::<T, EnumerateConsumer<C>>((0, state), seen, item) == ready(seen, item) by {
        lemma_enumerate_run::<T, C>(0, state, seen);
    }
    assert forall|seen: Seq<T>| #[trigger]
        going_after::<T, EnumerateConsumer<C>>((0, state), seen) == going(seen) by {
        lemma_enumerate_run::<T, C>(0, state, seen);
    }
    assert(readiness::<T, EnumerateConsumer<C>>((0, state)) =~= ready);
    assert(progress::<T, EnumerateConsumer<C>>((0, state)) =~= going);
}

impl<I: InternalIterator> InternalIterator for Enumerate<I> {
    type Item = (usize, I::Item);

    open spec fn items(&self) -> Seq<(usize, I::Item)> {
        enumerate_items(0, self.iter.items())
    }

    open spec fn safe(
        &self,
        ready: spec_fn(Seq<(usize, I::Item)>, (usize, I::Item)) -> bool,
        going: spec_fn(Seq<(usize, I::Item)>) -> bool,
    ) -> bool {
        self.iter.safe(enumerate_ready(ready, going), enumerate_going(going))
    }

    open spec fn exact(&self) -> bool {
        self.iter.exact()
    }

    fn try_for_each<C: Consumer<(usize, I::Item)>>(self, consumer: C) -> (out: (
        ControlFlow<C::Break>,
        C,
    )) {
        let ghost start = consumer@;
        proof {
            lemma_enumerate_oracle::<I::Item, C>(start);
            lemma_enumerate_run::<I::Item, C>(0, start, self.iter.items());
        }
        let (signal, wrapped) = self.iter.try_for_each(
            EnumerateConsumer { index: 0, inner: consumer },
        );
        proof {
            let seen = witness::<I::Item, EnumerateConsumer<C>>((0, start), wrapped@, signal);
            lemma_enumerate_run::<I::Item, C>(0, start, seen);
            lemma_reaches::<(usize, I::Item), C>(start, enumerate_items(0, seen));
        }
        (signal, wrapped.inner)
    }

    /// The number of items, counted without pairing any.
    fn count(self) -> (n: usize) {
        proof {
            assert(enumerate_ready(
                count_ready::<(usize, I::Item)>(),
                unbroken::<(usize, I::Item)>(),
            ) =~= count_ready::<I::Item>());
            assert(enumerate_going(unbroken::<(usize, I::Item)>()) =~= unbroken::<I::Item>());
        }
        self.iter.count()
    }
}

} // verus!
