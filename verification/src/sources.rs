//! The collections that are iterators as they stand.
use crate::consumer::{
    lemma_break_ends_run, lemma_reaches, lemma_run_push, progress, readiness, run, Consumer,
};
use crate::iterator::InternalIterator;
use core::ops::ControlFlow;
use vstd::prelude::*;
use vstd::std_specs::iter::IteratorSpec;

verus! {

/// What a source that yields `items` asks of the consumer: that it is ready
/// for each item that it gets to.
pub open spec fn source_safe<T>(
    items: Seq<T>,
    ready: spec_fn(Seq<T>, T) -> bool,
    going: spec_fn(Seq<T>) -> bool,
) -> bool {
    forall|i: int|
        0 <= i < items.len() && going(items.take(i)) ==> #[trigger] ready(items.take(i), items[i])
}

/// What handing over the item at index `i` comes to, for a consumer that
/// has gone on through those before it: it is ready for the item, and the
/// run over the items up to it is one more step. If the consumer breaks
/// there, that is the outcome of the whole run.
pub proof fn lemma_source_step<T, C: Consumer<T>>(start: C::V, items: Seq<T>, i: int)
    requires
        0 <= i < items.len(),
        source_safe(items, readiness::<T, C>(start), progress::<T, C>(start)),
        run::<T, C>(start, items.take(i)).1 is Continue,
    ensures
        C::ready(run::<T, C>(start, items.take(i)).0, items[i]),
        run::<T, C>(start, items.take(i + 1)) == C::step(
            run::<T, C>(start, items.take(i)).0,
            items[i],
        ),
        run::<T, C>(start, items.take(i + 1)).1 is Break ==> run::<T, C>(start, items) == run::<
            T,
            C,
        >(start, items.take(i + 1)),
{
    let ready = readiness::<T, C>(start);
    let going = progress::<T, C>(start);
    assert(going(items.take(i)));
    assert(ready(items.take(i), items[i]));
    lemma_run_push::<T, C>(start, items.take(i), items[i]);
    assert(items.take(i).push(items[i]) =~= items.take(i + 1));
    if run::<T, C>(start, items.take(i + 1)).1 is Break {
        lemma_break_ends_run::<T, C>(start, items, i + 1);
    }
}

/// Asks `iter` for its next item. Of an iterator that keeps the laws of
/// `Iterator`, this is the first of the items that it has left.
pub fn pull<I: Iterator>(iter: &mut I) -> (r: Option<I::Item>)
    ensures
        ({
            let before = *old(iter);
            let after = *final(iter);
            &&& after.obeys_prophetic_iter_laws() == before.obeys_prophetic_iter_laws()
            &&& before.obeys_prophetic_iter_laws() ==> {
                &&& before.decrease() is Some == after.decrease() is Some
                &&& if before.remaining().len() > 0 {
                    &&& after.remaining() == before.remaining().drop_first()
                    &&& r == Some(before.remaining()[0])
                } else {
                    &&& after.remaining() == before.remaining()
                    &&& r is None
                }
                &&& r is Some && after.decrease() is Some ==> decreases_to!(
                    before.decrease()->0 => after.decrease()->0
                )
            }
        }),
{
    iter.next()
}

impl<T> InternalIterator for Vec<T> {
    type Item = T;

    open spec fn items(&self) -> Seq<T> {
        self@
    }

    open spec fn safe(
        &self,
        ready: spec_fn(Seq<T>, T) -> bool,
        going: spec_fn(Seq<T>) -> bool,
    ) -> bool {
        source_safe(self@, ready, going)
    }

    open spec fn exact(&self) -> bool {
        true
    }

    fn try_for_each<C: Consumer<T>>(self, consumer: C) -> (out: (ControlFlow<C::Break>, C)) {
        let ghost start = consumer@;
        let ghost items = self@;
        let ghost mut i: int = 0;
        let mut current = consumer;
        let mut rest = self.into_iter();
        proof {
            assert(items.take(0) =~= Seq::<T>::empty());
            assert(items.skip(0) =~= items);
        }
        loop
            invariant
                items == self@,
                start == consumer@,
                source_safe(items, readiness::<T, C>(start), progress::<T, C>(start)),
                rest.obeys_prophetic_iter_laws(),
                rest.decrease() is Some,
                0 <= i <= items.len(),
                rest.remaining() == items.skip(i),
                run::<T, C>(start, items.take(i)) == (
                    current@,
                    ControlFlow::<C::Break, ()>::Continue(()),
                ),
            decreases rest.decrease()->0,
        {
            match pull(&mut rest) {
                None => {
                    proof {
                        assert(items.skip(i).len() == 0);
                        assert(items.take(i) =~= items);
                        lemma_reaches::<T, C>(start, items);
                    }
                    return (ControlFlow::Continue(()), current);
                },
                Some(item) => {
                    proof {
                        assert(item == items[i]);
                        lemma_source_step::<T, C>(start, items, i);
                        assert(items.skip(i).drop_first() =~= items.skip(i + 1));
                        lemma_reaches::<T, C>(start, items.take(i + 1));
                    }
                    let (signal, next) = current.accept(item);
                    current = next;
                    proof {
                        i = i + 1;
                    }
                    match signal {
                        ControlFlow::Break(value) => {
                            return (ControlFlow::Break(value), current);
                        },
                        ControlFlow::Continue(unit) => {
                            assert(unit == ());
                        },
                    }
                },
            }
        }
    }
}

impl<T: Copy, const N: usize> InternalIterator for [T; N] {
    type Item = T;

    open spec fn items(&self) -> Seq<T> {
        self@
    }

    open spec fn safe(
        &self,
        ready: spec_fn(Seq<T>, T) -> bool,
        going: spec_fn(Seq<T>) -> bool,
    ) -> bool {
        source_safe(self@, ready, going)
    }

    open spec fn exact(&self) -> bool {
        true
    }

    fn try_for_each<C: Consumer<T>>(self, consumer: C) -> (out: (ControlFlow<C::Break>, C)) {
        let ghost start = consumer@;
        let ghost items = self@;
        let mut current = consumer;
        let mut i: usize = 0;
        proof {
            assert(items.take(0) =~= Seq::<T>::empty());
        }
        while i < N
            invariant
                items == self@,
                items.len() == N,
                start == consumer@,
                source_safe(items, readiness::<T, C>(start), progress::<T, C>(start)),
                i <= N,
                run::<T, C>(start, items.take(i as int)) == (
                    current@,
                    ControlFlow::<C::Break, ()>::Continue(()),
                ),
            decreases N - i,
        {
            proof {
                lemma_source_step::<T, C>(start, items, i as int);
                lemma_reaches::<T, C>(start, items.take(i + 1));
            }
            let (signal, next) = current.accept(self[i]);
            current = next;
            match signal {
                ControlFlow::Break(value) => {
                    return (ControlFlow::Break(value), current);
                },
                ControlFlow::Continue(unit) => {
                    assert(unit == ());
                },
            }
            i += 1;
        }
        proof {
            assert(items.take(i as int) =~= items);
            lemma_reaches::<T, C>(start, items);
        }
        (ControlFlow::Continue(()), current)
    }
}

/// The items of `items`, each behind a reference.
pub open spec fn borrowed<'a, T>(items: Seq<T>) -> Seq<&'a T> {
    Seq::new(items.len(), |i: int| &items[i])
}

impl<'a, T> InternalIterator for &'a Vec<T> {
    type Item = &'a T;

    open spec fn items(&self) -> Seq<&'a T> {
        borrowed(self@)
    }

    open spec fn safe(
        &self,
        ready: spec_fn(Seq<&'a T>, &'a T) -> bool,
        going: spec_fn(Seq<&'a T>) -> bool,
    ) -> bool {
        source_safe(borrowed(self@), ready, going)
    }

    open spec fn exact(&self) -> bool {
        true
    }

    fn try_for_each<C: Consumer<&'a T>>(self, consumer: C) -> (out: (ControlFlow<C::Break>, C)) {
        let ghost start = consumer@;
        let ghost items = borrowed::<T>(self@);
        let mut current = consumer;
        let mut i: usize = 0;
        proof {
            assert(items.take(0) =~= Seq::<&'a T>::empty());
        }
        while i < self.len()
            invariant
                items == borrowed::<T>(self@),
                start == consumer@,
                source_safe(items, readiness::<&'a T, C>(start), progress::<&'a T, C>(start)),
                i <= self.len(),
                run::<&'a T, C>(start, items.take(i as int)) == (
                    current@,
                    ControlFlow::<C::Break, ()>::Continue(()),
                ),
            decreases self.len() - i,
        {
            proof {
                lemma_source_step::<&'a T, C>(start, items, i as int);
                lemma_reaches::<&'a T, C>(start, items.take(i + 1));
            }
            let (signal, next) = current.accept(&self[i]);
            current = next;
            match signal {
                ControlFlow::Break(value) => {
                    return (ControlFlow::Break(value), current);
                },
                ControlFlow::Continue(unit) => {
                    assert(unit == ());
                },
            }
            i += 1;
        }
        proof {
            assert(items.take(i as int) =~= items);
            lemma_reaches::<&'a T, C>(start, items);
        }
        (ControlFlow::Continue(()), current)
    }
}

impl<'a, T> InternalIterator for &'a [T] {
    type Item = &'a T;

    open spec fn items(&self) -> Seq<&'a T> {
        borrowed(self@)
    }

    open spec fn safe(
        &self,
        ready: spec_fn(Seq<&'a T>, &'a T) -> bool,
        going: spec_fn(Seq<&'a T>) -> bool,
    ) -> bool {
        source_safe(borrowed(self@), ready, going)
    }

    open spec fn exact(&self) -> bool {
        true
    }

    fn try_for_each<C: Consumer<&'a T>>(self, consumer: C) -> (out: (ControlFlow<C::Break>, C)) {
        let ghost start = consumer@;
        let ghost items = borrowed::<T>(self@);
        let mut current = consumer;
        let mut i: usize = 0;
        proof {
            assert(items.take(0) =~= Seq::<&'a T>::empty());
        }
        while i < self.len()
            invariant
                items == borrowed::<T>(self@),
                start == consumer@,
                source_safe(items, readiness::<&'a T, C>(start), progress::<&'a T, C>(start)),
                i <= self.len(),
                run::<&'a T, C>(start, items.take(i as int)) == (
                    current@,
                    ControlFlow::<C::Break, ()>::Continue(()),
                ),
            decreases self.len() - i,
        {
            proof {
                lemma_source_step::<&'a T, C>(start, items, i as int);
                lemma_reaches::<&'a T, C>(start, items.take(i + 1));
            }
            let (signal, next) = current.accept(&self[i]);
            current = next;
            match signal {
                ControlFlow::Break(value) => {
                    return (ControlFlow::Break(value), current);
                },
                ControlFlow::Continue(unit) => {
                    assert(unit == ());
                },
            }
            i += 1;
        }
        proof {
            assert(items.take(i as int) =~= items);
            lemma_reaches::<&'a T, C>(start, items);
        }
        (ControlFlow::Continue(()), current)
    }
}

} // verus!
