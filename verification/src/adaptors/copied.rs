//! Copies of borrowed items.
use crate::adaptors::map::{
    lemma_map_oracle, lemma_map_run, map_going, map_items, map_ready, MapConsumer,
};
use crate::consumer::{lemma_reaches, witness, Consumer};
use crate::func::UnaryFn;
use crate::iterator::InternalIterator;
use crate::terminal::{count_ready, nth_going, unbroken, unconditional};
use core::ops::ControlFlow;
use vstd::prelude::*;

verus! {

/// An iterator that copies the items of an underlying iterator.
pub struct Copied<I> {
    pub iter: I,
}

/// A reference to a value that can be copied.
pub trait CopyRef: Sized {
    /// The type of the value.
    type Value;

    /// The value that the reference points to.
    spec fn pointee(&self) -> Self::Value;

    /// Copies the value.
    fn copy_out(self) -> (r: Self::Value)
        ensures
            r == self.pointee(),
    ;
}

impl<'a, T: Copy> CopyRef for &'a T {
    type Value = T;

    open spec fn pointee(&self) -> T {
        **self
    }

    fn copy_out(self) -> (r: T) {
        *self
    }
}

/// The function that copies what a reference points to.
pub struct CopyOut {}

impl<R: CopyRef> UnaryFn<R> for CopyOut {
    type Output = R::Value;

    open spec fn accepts(&self, x: R) -> bool {
        true
    }

    open spec fn result(&self, x: R) -> R::Value {
        x.pointee()
    }

    fn invoke(&mut self, x: R) -> (r: R::Value) {
        x.copy_out()
    }
}

impl<R: CopyRef, I: InternalIterator<Item = R>> InternalIterator for Copied<I> {
    type Item = R::Value;

    open spec fn items(&self) -> Seq<R::Value> {
        map_items(CopyOut {  }, self.iter.items())
    }

    open spec fn safe(
        &self,
        ready: spec_fn(Seq<R::Value>, R::Value) -> bool,
        going: spec_fn(Seq<R::Value>) -> bool,
    ) -> bool {
        self.iter.safe(map_ready(CopyOut {  }, ready, going), map_going(CopyOut {  }, going))
    }

    open spec fn exact(&self) -> bool {
        self.iter.exact()
    }

    /// Copies each item at the moment it is handed on, and none that the
    /// traversal does not reach.
    fn try_for_each<C: Consumer<R::Value>>(self, consumer: C) -> (out: (
        ControlFlow<C::Break>,
        C,
    )) {
        let ghost start = consumer@;
        let copy = CopyOut {  };
        proof {
            lemma_map_oracle::<R, CopyOut, C>(copy, start);
            lemma_map_run::<R, CopyOut, C>(copy, start, self.iter.items());
        }
        let (signal, wrapped) = self.iter.try_for_each(MapConsumer { f: copy, inner: consumer });
        proof {
            let seen = witness::<R, MapConsumer<CopyOut, C>>((copy, start), wrapped@, signal);
            lemma_map_run::<R, CopyOut, C>(copy, start, seen);
            lemma_reaches::<R::Value, C>(start, map_items(copy, seen));
        }
        (signal, wrapped.inner)
    }

    /// The number of items, counted without copying any.
    fn count(self) -> (n: usize) {
        proof {
            let copy = CopyOut {  };
            assert(map_ready(copy, count_ready::<R::Value>(), unbroken::<R::Value>())
                =~= count_ready::<R>());
            assert(map_going(copy, unbroken::<R::Value>()) =~= unbroken::<R>());
        }
        self.iter.count()
    }

    /// A copy of the last item, and of no other.
    fn last(self) -> (r: Option<R::Value>) {
        proof {
            let copy = CopyOut {  };
            assert(map_ready(copy, unconditional::<R::Value>(), unbroken::<R::Value>())
                =~= unconditional::<R>());
            assert(map_going(copy, unbroken::<R::Value>()) =~= unbroken::<R>());
            if self.iter.items().len() > 0 {
                assert(self.items().last() == self.iter.items().last().pointee());
            }
        }
        match self.iter.last() {
            Some(item) => Some(item.copy_out()),
            None => None,
        }
    }

    /// A copy of the item at index `n`, and of no other.
    fn nth(self, n: usize) -> (r: Option<R::Value>) {
        proof {
            let copy = CopyOut {  };
            assert(map_ready(copy, unconditional::<R::Value>(), nth_going::<R::Value>(n as nat))
                =~= unconditional::<R>());
            assert(map_going(copy, nth_going::<R::Value>(n as nat)) =~= nth_going::<R>(
                n as nat,
            ));
        }
        match self.iter.nth(n) {
            Some(item) => Some(item.copy_out()),
            None => None,
        }
    }
}

} // verus!
