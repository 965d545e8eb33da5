//! Two iterators, one after the other.
use crate::consumer::{
    going_behind, lemma_oracle_behind, lemma_reaches_then, lemma_run_concat, progress, reaches,
    readiness, ready_behind, run, witness, Consumer,
};
use crate::iterator::InternalIterator;
use crate::terminal::{unbroken, unconditional};
use core::ops::ControlFlow;
use vstd::prelude::*;

verus! {

/// An iterator that yields the items of `first` and then those of `second`.
pub struct Chain<A, B> {
    pub first: A,
    pub second: B,
}

impl<A: InternalIterator, B: InternalIterator<Item = A::Item>> InternalIterator for Chain<A, B> {
    type Item = A::Item;

    open spec fn items(&self) -> Seq<A::Item> {
        self.first.items() + self.second.items()
    }

    /// `first` has to be safe for the consumer. `second` has to be safe for
    /// it as it is after `first`, where it goes on through what `first`
    /// yields; where that is not known, whatever `first` may yield.
    open spec fn safe(
        &self,
        ready: spec_fn(Seq<A::Item>, A::Item) -> bool,
        going: spec_fn(Seq<A::Item>) -> bool,
    ) -> bool {
        &&& self.first.safe(ready, going)
        &&& forall|head: Seq<A::Item>|
            (self.first.exact() ==> head == self.first.items()) && going(head)
                ==> #[trigger] self.second.safe(
                ready_behind(head, ready),
                going_behind(head, going),
            )
    }

    open spec fn exact(&self) -> bool {
        self.first.exact() && self.second.exact()
    }

    /// Drives `first`; if the consumer did not break, drives `second` with
    /// the same consumer. A break within an exact `first` is the outcome
    /// whatever `second` is.
    fn try_for_each<C: Consumer<A::Item>>(self, consumer: C) -> (out: (
        ControlFlow<C::Break>,
        C,
    ))
        ensures
            self.first.exact() && run::<A::Item, C>(consumer@, self.first.items()).1 is Break ==> (
                out.1@,
                out.0,
            ) == run::<A::Item, C>(consumer@, self.first.items()),
    {
        let ghost start = consumer@;
        let ghost head = self.first.items();
        let ghost tail = self.second.items();
        proof {
            lemma_run_concat::<A::Item, C>(start, head, tail);
        }
        let (signal, consumer) = self.first.try_for_each(consumer);
        match signal {
            ControlFlow::Break(value) => (ControlFlow::Break(value), consumer),
            ControlFlow::Continue(unit) => {
                let ghost middle = consumer@;
                proof {
                    assert(unit == ());
                    assert(reaches::<A::Item, C>(start, middle, ControlFlow::Continue(())));
                    let seen = if self.first.exact() {
                        head
                    } else {
                        witness::<A::Item, C>(start, middle, ControlFlow::Continue(()))
                    };
                    let going = progress::<A::Item, C>(start);
                    assert(going(seen));
                    lemma_oracle_behind::<A::Item, C>(start, seen);
                    assert(self.second.safe(
                        ready_behind(seen, readiness::<A::Item, C>(start)),
                        going_behind(seen, going),
                    ));
                }
                let (signal, consumer) = self.second.try_for_each(consumer);
                proof {
                    lemma_reaches_then::<A::Item, C>(start, middle, consumer@, signal);
                }
                (signal, consumer)
            },
        }
    }

    /// The last item of `second`, or that of `first` where `second` has
    /// none. Drives both to their end.
    fn last(self) -> (r: Option<A::Item>) {
        proof {
            if self.second.items().len() > 0 {
                assert(self.items().last() == self.second.items().last());
            } else {
                assert(self.items() =~= self.first.items());
            }
            let head = self.first.items();
            assert(unbroken::<A::Item>()(head));
            assert(self.second.safe(
                ready_behind(head, unconditional::<A::Item>()),
                going_behind(head, unbroken::<A::Item>()),
            ));
            assert(ready_behind(head, unconditional::<A::Item>()) =~= unconditional::<A::Item>());
            assert(going_behind(head, unbroken::<A::Item>()) =~= unbroken::<A::Item>());
        }
        match (self.first.last(), self.second.last()) {
            (_, Some(x)) | (Some(x), None) => Some(x),
            (None, None) => None,
        }
    }
}

} // verus!
