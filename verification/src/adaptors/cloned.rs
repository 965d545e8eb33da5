//! Clones of borrowed items.
use crate::adaptors::map::{
    lemma_map_oracle, lemma_map_run, map_going, map_items, map_ready, MapConsumer,
};
use crate::consumer::{lemma_reaches, witness, Consumer};
use crate::func::UnaryFn;
use crate::iterator::InternalIterator;
use core::ops::ControlFlow;
use vstd::prelude::*;

verus! {

/// An iterator that clones the items of an underlying iterator.
pub struct Cloned<I> {
    pub iter: I,
}

/// A reference to a value that can be cloned.
pub trait CloneRef: Sized {
    /// The type of the value.
    type Value;

    /// Whether `clone` may be called on the value and has one result there.
    spec fn clonable(&self) -> bool;

    /// The clone of the value that the reference points to.
    spec fn clone_of(&self) -> Self::Value;

    /// Clones the value.
    fn clone_out(self) -> (r: Self::Value)
        requires
            self.clonable(),
        ensures
            r == self.clone_of(),
    ;
}

impl<'a, T: Clone> CloneRef for &'a T {
    type Value = T;

    open spec fn clonable(&self) -> bool {
        &&& call_requires(T::clone, (*self,))
        &&& forall|y1: T, y2: T|
            call_ensures(T::clone, (*self,), y1) && call_ensures(T::clone, (*self,), y2) ==> y1
                == y2
    }

    open spec fn clone_of(&self) -> T {
        choose|y: T| call_ensures(T::clone, (*self,), y)
    }

    fn clone_out(self) -> (r: T) {
        self.clone()
    }
}

/// The function that clones what a reference points to.
pub struct CloneOut {}

impl<R: CloneRef> UnaryFn<R> for CloneOut {
    type Output = R::Value;

    open spec fn accepts(&self, x: R) -> bool {
        x.clonable()
    }

    open spec fn result(&self, x: R) -> R::Value {
        x.clone_of()
    }

    fn invoke(&mut self, x: R) -> (r: R::Value) {
        x.clone_out()
    }
}

impl<R: CloneRef, I: InternalIterator<Item = R>> InternalIterator for Cloned<I> {
    type Item = R::Value;

    open spec fn items(&self) -> Seq<R::Value> {
        map_items(CloneOut {  }, self.iter.items())
    }

    open spec fn safe(
        &self,
        ready: spec_fn(Seq<R::Value>, R::Value) -> bool,
        going: spec_fn(Seq<R::Value>) -> bool,
    ) -> bool {
        self.iter.safe(map_ready(CloneOut {  }, ready, going), map_going(CloneOut {  }, going))
    }

    open spec fn exact(&self) -> bool {
        self.iter.exact()
    }

    /// Clones each item at the moment it is handed on, and none that the
    /// traversal does not reach.
    fn try_for_each<C: Consumer<R::Value>>(self, consumer: C) -> (out: (
        ControlFlow<C::Break>,
        C,
    )) {
        let ghost start = consumer@;
        let cloning = CloneOut {  };
        proof {
            lemma_map_oracle::<R, CloneOut, C>(cloning, start);
            lemma_map_run::<R, CloneOut, C>(cloning, start, self.iter.items());
        }
        let (signal, wrapped) = self.iter.try_for_each(MapConsumer { f: cloning, inner: consumer });
        proof {
            let seen = witness::<R, MapConsumer<CloneOut, C>>((cloning, start), wrapped@, signal);
            lemma_map_run::<R, CloneOut, C>(cloning, start, seen);
            lemma_reaches::<R::Value, C>(start, map_items(cloning, seen));
        }
        (signal, wrapped.inner)
    }
}

} // verus!
