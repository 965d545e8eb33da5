//! Ranges of integers as sources.
use crate::consumer::{lemma_reaches, progress, readiness, run, Consumer};
use crate::convert::IntoInternalIterator;
use crate::iterator::InternalIterator;
use crate::sources::{lemma_source_step, source_safe};
use core::ops::{ControlFlow, Range};
use vstd::prelude::*;

verus! {

/// The integers from `next` on that are less than `end`, in rising order.
pub struct Span<T> {
    pub next: T,
    pub end: T,
}

/// The integers from `next` on that are less than `end`.
pub open spec fn span_i32(next: i32, end: i32) -> Seq<i32> {
    Seq::new(
        if next < end {
            (end - next) as nat
        } else {
            0
        },
        |i: int| (next + i) as i32,
    )
}

/// The integers from `next` on that are less than `end`.
pub open spec fn span_usize(next: usize, end: usize) -> Seq<usize> {
    Seq::new(
        if next < end {
            (end - next) as nat
        } else {
            0
        },
        |i: int| (next + i) as usize,
    )
}

impl InternalIterator for Span<i32> {
    type Item = i32;

    open spec fn items(&self) -> Seq<i32> {
        span_i32(self.next, self.end)
    }

    open spec fn safe(
        &self,
        ready: spec_fn(Seq<i32>, i32) -> bool,
        going: spec_fn(Seq<i32>) -> bool,
    ) -> bool {
        source_safe(span_i32(self.next, self.end), ready, going)
    }

    open spec fn exact(&self) -> bool {
        true
    }

    fn try_for_each<C: Consumer<i32>>(self, consumer: C) -> (out: (ControlFlow<C::Break>, C)) {
        let ghost start = consumer@;
        let ghost items = span_i32(self.next, self.end);
        let mut current = consumer;
        let mut x: i32 = self.next;
        proof {
            assert(items.take(0) =~= Seq::<i32>::empty());
        }
        while x < self.end
            invariant
                items == span_i32(self.next, self.end),
                start == consumer@,
                source_safe(items, readiness::<i32, C>(start), progress::<i32, C>(start)),
                self.next <= x,
                x <= self.end || items.len() == 0,
                items.len() == 0 ==> x == self.next,
                run::<i32, C>(start, items.take(x - self.next)) == (
                    current@,
                    ControlFlow::<C::Break, ()>::Continue(()),
                ),
            decreases self.end - x,
        {
            proof {
                lemma_source_step::<i32, C>(start, items, x - self.next);
                lemma_reaches::<i32, C>(start, items.take(x - self.next + 1));
            }
            let (signal, next) = current.accept(x);
            current = next;
            match signal {
                ControlFlow::Break(value) => {
                    return (ControlFlow::Break(value), current);
                },
                ControlFlow::Continue(unit) => {
                    assert(unit == ());
                },
            }
            x += 1;
        }
        proof {
            assert(items.take(x - self.next) =~= items);
            lemma_reaches::<i32, C>(start, items);
        }
        (ControlFlow::Continue(()), current)
    }
}

impl InternalIterator for Span<usize> {
    type Item = usize;

    open spec fn items(&self) -> Seq<usize> {
        span_usize(self.next, self.end)
    }

    open spec fn safe(
        &self,
        ready: spec_fn(Seq<usize>, usize) -> bool,
        going: spec_fn(Seq<usize>) -> bool,
    ) -> bool {
        source_safe(span_usize(self.next, self.end), ready, going)
    }

    open spec fn exact(&self) -> bool {
        true
    }

    fn try_for_each<C: Consumer<usize>>(self, consumer: C) -> (out: (ControlFlow<C::Break>, C)) {
        let ghost start = consumer@;
        let ghost items = span_usize(self.next, self.end);
        let mut current = consumer;
        let mut x: usize = self.next;
        proof {
            assert(items.take(0) =~= Seq::<usize>::empty());
        }
        while x < self.end
            invariant
                items == span_usize(self.next, self.end),
                start == consumer@,
                source_safe(items, readiness::<usize, C>(start), progress::<usize, C>(start)),
                self.next <= x,
                x <= self.end || items.len() == 0,
                items.len() == 0 ==> x == self.next,
                run::<usize, C>(start, items.take(x - self.next)) == (
                    current@,
                    ControlFlow::<C::Break, ()>::Continue(()),
                ),
            decreases self.end - x,
        {
            proof {
                lemma_source_step::<usize, C>(start, items, x - self.next);
                lemma_reaches::<usize, C>(start, items.take(x - self.next + 1));
            }
            let (signal, next) = current.accept(x);
            current = next;
            match signal {
                ControlFlow::Break(value) => {
                    return (ControlFlow::Break(value), current);
                },
                ControlFlow::Continue(unit) => {
                    assert(unit == ());
                },
            }
            x += 1;
        }
        proof {
            assert(items.take(x - self.next) =~= items);
            lemma_reaches::<usize, C>(start, items);
        }
        (ControlFlow::Continue(()), current)
    }
}

impl IntoInternalIterator for Range<i32> {
    type Item = i32;

    type IntoIter = Span<i32>;

    open spec fn into_items(&self) -> Seq<i32> {
        span_i32(self.start, self.end)
    }

    open spec fn into_safe(
        &self,
        ready: spec_fn(Seq<i32>, i32) -> bool,
        going: spec_fn(Seq<i32>) -> bool,
    ) -> bool {
        source_safe(span_i32(self.start, self.end), ready, going)
    }

    open spec fn into_exact(&self) -> bool {
        true
    }

    fn into_internal_iter(self) -> (r: Span<i32>) {
        Span { next: self.start, end: self.end }
    }
}

impl IntoInternalIterator for Range<usize> {
    type Item = usize;

    type IntoIter = Span<usize>;

    open spec fn into_items(&self) -> Seq<usize> {
        span_usize(self.start, self.end)
    }

    open spec fn into_safe(
        &self,
        ready: spec_fn(Seq<usize>, usize) -> bool,
        going: spec_fn(Seq<usize>) -> bool,
    ) -> bool {
        source_safe(span_usize(self.start, self.end), ready, going)
    }

    open spec fn into_exact(&self) -> bool {
        true
    }

    fn into_internal_iter(self) -> (r: Span<usize>) {
        Span { next: self.start, end: self.end }
    }
}

} // verus!
