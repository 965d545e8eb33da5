//! Iterators made from a generator: a value that puts its items, one after
//! the other, into a sink that it is given.
use crate::consumer::{
    lemma_break_ends_run, lemma_reaches, lemma_run_push, progress, readiness, run, safe_for_any,
    Consumer,
};
use crate::iterator::InternalIterator;
use crate::sources::{pull, source_safe};
use core::marker::PhantomData;
use core::ops::ControlFlow;
use vstd::prelude::*;
use vstd::std_specs::iter::IteratorSpec;

verus! {

/// What a sink answers with when the traversal is to stop. The value that
/// the consumer broke with stays in the sink.
pub struct BreakValue<'a> {
    _invariant: PhantomData<&'a mut &'a ()>,
}

/// Where a generator puts the items that it yields.
///
/// A sink hands the items on until the traversal is stopped. It is known by
/// the items that it has taken and by what tells, for the items taken,
/// whether it goes on and what it is ready for.
pub trait Sink<'a, R>: Sized {
    /// What stays the same whatever is put.
    type Base;

    /// What stays the same whatever is put.
    spec fn base(&self) -> Self::Base;

    /// Whether the sink is as it should be.
    spec fn wf(&self) -> bool;

    /// The items that the sink has taken.
    spec fn taken(&self) -> Seq<R>;

    /// Whether, with given items taken, the sink goes on.
    spec fn going(&self) -> spec_fn(Seq<R>) -> bool;

    /// Whether, with given items taken, the sink is ready for another.
    spec fn ready(&self) -> spec_fn(Seq<R>, R) -> bool;

    /// Hands one item to the traversal. A sink that goes on takes it; one
    /// that has stopped lets it drop. On `Break` the generator is to return
    /// at once, with that `Break`.
    fn put(&mut self, item: R) -> (signal: ControlFlow<BreakValue<'a>>)
        requires
            old(self).wf(),
            old(self).going()(old(self).taken()) ==> old(self).ready()(old(self).taken(), item),
        ensures
            final(self).wf(),
            final(self).base() == old(self).base(),
            final(self).going() == old(self).going(),
            final(self).ready() == old(self).ready(),
            final(self).taken() == (if old(self).going()(old(self).taken()) {
                old(self).taken().push(item)
            } else {
                old(self).taken()
            }),
            (signal is Break) == !final(self).going()(final(self).taken()),
    ;
}

/// A value that yields items by putting them into a sink.
pub trait Generator<R>: Sized {
    /// The items that the generator puts, in order, if nothing stops it.
    open spec fn puts(&self) -> Seq<R> {
        Seq::empty()
    }

    /// Whether `puts` tells what the generator puts. A generator is taken
    /// not to be exact unless it says that it is.
    open spec fn exact(&self) -> bool {
        false
    }

    /// Whether the generator may be run with a sink that goes on and is
    /// ready as `going` and `ready` tell.
    open spec fn safe(
        &self,
        ready: spec_fn(Seq<R>, R) -> bool,
        going: spec_fn(Seq<R>) -> bool,
    ) -> bool {
        true
    }

    /// Puts the items into `sink`, in order, up to the first one that the
    /// sink answers with `Break`, and returns that `Break`; `Continue` if
    /// there was none.
    fn generate<'a, S: Sink<'a, R>>(self, sink: &mut S) -> (signal: ControlFlow<BreakValue<'a>>)
        requires
            old(sink).wf(),
            old(sink).taken() == Seq::<R>::empty(),
            self.safe(old(sink).ready(), old(sink).going()),
            !self.exact() ==> safe_for_any(old(sink).ready(), old(sink).going()),
        ensures
            final(sink).wf(),
            final(sink).base() == old(sink).base(),
            final(sink).going() == old(sink).going(),
            final(sink).ready() == old(sink).ready(),
            self.exact() ==> final(sink).taken().is_prefix_of(self.puts()),
            self.exact() && final(sink).going()(final(sink).taken()) ==> final(sink).taken()
                == self.puts(),
    ;
}

impl<R> Generator<R> for Vec<R> {
    open spec fn puts(&self) -> Seq<R> {
        self@
    }

    open spec fn exact(&self) -> bool {
        true
    }

    open spec fn safe(
        &self,
        ready: spec_fn(Seq<R>, R) -> bool,
        going: spec_fn(Seq<R>) -> bool,
    ) -> bool {
        source_safe(self@, ready, going)
    }

    /// Puts the items of the vector, from the first on.
    fn generate<'a, S: Sink<'a, R>>(self, sink: &mut S) -> (signal: ControlFlow<BreakValue<'a>>) {
        let ghost items = self@;
        let ghost ready = sink.ready();
        let ghost going = sink.going();
        let ghost base = sink.base();
        let ghost mut i: int = 0;
        let mut rest = self.into_iter();
        proof {
            assert(items.take(0) =~= Seq::<R>::empty());
            assert(items.skip(0) =~= items);
        }
        loop
            invariant
                items == self@,
                ready == old(sink).ready(),
                going == old(sink).going(),
                base == old(sink).base(),
                source_safe(items, ready, going),
                sink.wf(),
                sink.base() == base,
                sink.ready() == ready,
                sink.going() == going,
                rest.obeys_prophetic_iter_laws(),
                rest.decrease() is Some,
                0 <= i <= items.len(),
                rest.remaining() == items.skip(i),
                sink.taken() == items.take(i),
                i > 0 ==> going(items.take(i)),
            decreases rest.decrease()->0,
        {
            match pull(&mut rest) {
                None => {
                    proof {
                        assert(items.skip(i).len() == 0);
                        assert(items.take(i) =~= items);
                    }
                    return ControlFlow::Continue(());
                },
                Some(item) => {
                    proof {
                        assert(item == items[i]);
                        if going(items.take(i)) {
                            assert(ready(items.take(i), items[i]));
                        }
                        assert(items.take(i).push(item) =~= items.take(i + 1));
                        assert(items.skip(i).drop_first() =~= items.skip(i + 1));
                    }
                    let signal = sink.put(item);
                    match signal {
                        ControlFlow::Break(value) => {
                            return ControlFlow::Break(value);
                        },
                        ControlFlow::Continue(_) => {
                            proof {
                                i = i + 1;
                            }
                        },
                    }
                },
            }
        }
    }
}

/// The sink that stands between a generator and the consumer: it hands the
/// items on until the consumer breaks, keeps what it broke with, and lets
/// nothing through after that.
pub struct Relay<R, C: View, B> {
    pub consumer: Option<C>,
    pub outcome: ControlFlow<B>,
    pub start: Ghost<C::V>,
    pub taken: Ghost<Seq<R>>,
}

impl<'a, R, C: Consumer<R>> Sink<'a, R> for Relay<R, C, C::Break> {
    type Base = C::V;

    open spec fn base(&self) -> C::V {
        self.start@
    }

    /// The relay holds the consumer as the items taken have left it, and
    /// what came of them.
    open spec fn wf(&self) -> bool {
        &&& self.consumer is Some
        &&& run::<R, C>(self.start@, self.taken@) == (self.consumer->0@, self.outcome)
    }

    open spec fn taken(&self) -> Seq<R> {
        self.taken@
    }

    open spec fn going(&self) -> spec_fn(Seq<R>) -> bool {
        progress::<R, C>(self.start@)
    }

    open spec fn ready(&self) -> spec_fn(Seq<R>, R) -> bool {
        readiness::<R, C>(self.start@)
    }

    /// Hands the item to the consumer, unless the consumer has broken
    /// before.
    fn put(&mut self, item: R) -> (signal: ControlFlow<BreakValue<'a>>) {
        let ghost going = self.going();
        let ghost ready = self.ready();
        match &self.outcome {
            ControlFlow::Break(_) => {
                return ControlFlow::Break(BreakValue { _invariant: PhantomData });
            },
            ControlFlow::Continue(_) => {},
        }
        proof {
            assert(going(self.taken@));
            assert(ready(self.taken@, item));
            lemma_run_push::<R, C>(self.start@, self.taken@, item);
        }
        let consumer = self.consumer.take().unwrap();
        let (signal, next) = consumer.accept(item);
        self.consumer = Some(next);
        proof {
            self.taken@ = self.taken@.push(item);
        }
        match signal {
            ControlFlow::Break(value) => {
                self.outcome = ControlFlow::Break(value);
                ControlFlow::Break(BreakValue { _invariant: PhantomData })
            },
            ControlFlow::Continue(unit) => {
                assert(unit == ());
                self.outcome = ControlFlow::Continue(());
                ControlFlow::Continue(())
            },
        }
    }
}

/// An iterator over what a generator puts into the sink that it is given.
pub struct FromFn<F, R> {
    pub f: F,
    pub _marker: PhantomData<R>,
}

/// An iterator over the items that `f` puts into its sink, in the order in
/// which it puts them.
pub fn from_fn<F: Generator<R>, R>(f: F) -> (r: FromFn<F, R>)
    ensures
        r.f == f,
{
    FromFn { f, _marker: PhantomData }
}

impl<F: Generator<R>, R> InternalIterator for FromFn<F, R> {
    type Item = R;

    open spec fn items(&self) -> Seq<R> {
        self.f.puts()
    }

    /// The generator has to be safe for the consumer; where it does not
    /// tell what it puts, the consumer has to be ready for whatever comes
    /// as long as it goes on.
    open spec fn safe(
        &self,
        ready: spec_fn(Seq<R>, R) -> bool,
        going: spec_fn(Seq<R>) -> bool,
    ) -> bool {
        &&& self.f.safe(ready, going)
        &&& !self.f.exact() ==> safe_for_any(ready, going)
    }

    open spec fn exact(&self) -> bool {
        self.f.exact()
    }

    /// Runs the generator with a sink that hands each item to `consumer`.
    /// Once the consumer has broken, the sink answers every item with
    /// `Break` and hands none of them on.
    fn try_for_each<C: Consumer<R>>(self, consumer: C) -> (out: (ControlFlow<C::Break>, C)) {
        let ghost start = consumer@;
        let ghost puts = self.f.puts();
        let mut relay = Relay {
            consumer: Some(consumer),
            outcome: ControlFlow::Continue(()),
            start: Ghost(start),
            taken: Ghost(Seq::empty()),
        };
        let _ = self.f.generate(&mut relay);
        proof {
            let taken = relay.taken@;
            lemma_reaches::<R, C>(start, taken);
            if self.f.exact() {
                assert(taken =~= puts.take(taken.len() as int));
                if !progress::<R, C>(start)(taken) {
                    lemma_break_ends_run::<R, C>(start, puts, taken.len() as int);
                }
            }
        }
        (relay.outcome, relay.consumer.unwrap())
    }
}

} // verus!
