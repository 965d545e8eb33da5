//! The operations that take or give a converted value: chaining with
//! anything that turns into an iterator, and collecting into a container.
use crate::adaptors::chain::Chain;
use crate::convert::{FromInternalIterator, IntoInternalIterator};
use crate::iterator::InternalIterator;
use crate::terminal::unconditional;
use vstd::prelude::*;

verus! {

/// Operations of every internal iterator that rest on a conversion.
pub trait InternalIteratorExt: InternalIterator {
    /// An iterator over the items of this one and then those of `other`.
    fn chain<U>(self, other: U) -> (r: Chain<Self, U::IntoIter>) where
        U: IntoInternalIterator<Item = Self::Item>,

        ensures
            r.first == self,
            r.second.items() == other.into_items(),
            r.second.exact() == other.into_exact(),
            forall|
                ready: spec_fn(Seq<Self::Item>, Self::Item) -> bool,
                going: spec_fn(Seq<Self::Item>) -> bool,
            | other.into_safe(ready, going) ==> #[trigger] r.second.safe(ready, going),
    {
        Chain { first: self, second: other.into_internal_iter() }
    }

    /// Drives the iterator and puts each item into a new container.
    fn collect<B>(self) -> (r: B) where B: FromInternalIterator<Self::Item>
        requires
            self.safe(unconditional(), B::builds_on()),
            B::can_build(),
        ensures
            self.exact() ==> r.built_from(self.items()),
    {
        B::from_iter(self)
    }
}

impl<I: InternalIterator> InternalIteratorExt for I {}

} // verus!
