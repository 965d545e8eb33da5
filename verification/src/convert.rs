//! Conversions: into an iterator, and from an iterator into a container.
use crate::consumer::{going_after, progress, readiness, run, Consumer};
use crate::terminal::{unbroken, unconditional};
use crate::iterator::InternalIterator;
use core::ops::ControlFlow;
use vstd::prelude::*;

verus! {

/// A value that can be turned into an internal iterator.
pub trait IntoInternalIterator: Sized {
    /// The type of the items.
    type Item;

    /// The iterator that the value turns into.
    type IntoIter: InternalIterator<Item = Self::Item>;

    /// The items of the iterator that the value turns into.
    spec fn into_items(&self) -> Seq<Self::Item>;

    /// Whether that iterator may be driven by a consumer that is ready and
    /// goes on as `ready` and `going` tell.
    spec fn into_safe(
        &self,
        ready: spec_fn(Seq<Self::Item>, Self::Item) -> bool,
        going: spec_fn(Seq<Self::Item>) -> bool,
    ) -> bool;

    /// Whether `into_items` tells what that iterator yields.
    spec fn into_exact(&self) -> bool;

    /// Turns the value into an iterator.
    fn into_internal_iter(self) -> (r: Self::IntoIter)
        ensures
            r.items() == self.into_items(),
            r.exact() == self.into_exact(),
            forall|
                ready: spec_fn(Seq<Self::Item>, Self::Item) -> bool,
                going: spec_fn(Seq<Self::Item>) -> bool,
            | self.into_safe(ready, going) ==> #[trigger] r.safe(ready, going),
    ;
}

impl<I: InternalIterator> IntoInternalIterator for I {
    type Item = I::Item;

    type IntoIter = I;

    open spec fn into_items(&self) -> Seq<I::Item> {
        self.items()
    }

    open spec fn into_safe(
        &self,
        ready: spec_fn(Seq<I::Item>, I::Item) -> bool,
        going: spec_fn(Seq<I::Item>) -> bool,
    ) -> bool {
        self.safe(ready, going)
    }

    open spec fn into_exact(&self) -> bool {
        self.exact()
    }

    fn into_internal_iter(self) -> (r: I) {
        self
    }
}

/// A container that can be built from the items of an internal iterator.
pub trait FromInternalIterator<A>: Sized {
    /// What the container asks of the type of its items: nothing for a
    /// sequence, the laws of hashing or of ordering for a set or a map.
    spec fn can_build() -> bool;

    /// How long building goes on, by the items that were put in: to the end
    /// for a plain container, up to the first error for a fallible one.
    spec fn builds_on() -> spec_fn(Seq<A>) -> bool;

    /// Whether this container is what putting `items` one by one into an
    /// empty one gives.
    spec fn built_from(&self, items: Seq<A>) -> bool;

    /// The consumer that builds the container.
    type Collector: Consumer<A>;

    /// The state of a collector that has taken nothing yet.
    spec fn fresh() -> <Self::Collector as View>::V;

    /// A collector that has taken nothing yet. It is ready for every item
    /// and goes on as `builds_on` tells.
    fn collector() -> (c: Self::Collector)
        requires
            Self::can_build(),
        ensures
            c@ == Self::fresh(),
            readiness::<A, Self::Collector>(c@) == unconditional::<A>(),
            progress::<A, Self::Collector>(c@) == Self::builds_on(),
    ;

    /// The container that a collector has built, given the signal that the
    /// traversal came back with.
    fn finish(
        signal: ControlFlow<<Self::Collector as Consumer<A>>::Break>,
        collector: Self::Collector,
    ) -> (r: Self)
        requires
            Self::can_build(),
        ensures
            forall|items: Seq<A>|
                #[trigger] run::<A, Self::Collector>(Self::fresh(), items) == (collector@, signal)
                    ==> r.built_from(items),
    ;

    /// Drives `iter` and puts each item into a new container.
    fn from_iter<T: IntoInternalIterator<Item = A>>(iter: T) -> (r: Self)
        requires
            iter.into_safe(unconditional(), Self::builds_on()),
            Self::can_build(),
        ensures
            iter.into_exact() ==> r.built_from(iter.into_items()),
    ;
}

/// Appends each item to a vector.
pub struct VecCollector<A> {
    pub out: Vec<A>,
}

impl<A> View for VecCollector<A> {
    type V = Seq<A>;

    open spec fn view(&self) -> Seq<A> {
        self.out@
    }
}

impl<A> Consumer<A> for VecCollector<A> {
    type Break = ();

    open spec fn ready(state: Seq<A>, item: A) -> bool {
        true
    }

    open spec fn step(state: Seq<A>, item: A) -> (Seq<A>, ControlFlow<()>) {
        (state.push(item), ControlFlow::Continue(()))
    }

    fn accept(self, item: A) -> (out: (ControlFlow<()>, Self)) {
        let mut out = self.out;
        out.push(item);
        (ControlFlow::Continue(()), VecCollector { out })
    }
}

/// A `VecCollector` ends with the items appended to what it held.
pub proof fn lemma_vec_collector_run<A>(state: Seq<A>, items: Seq<A>)
    ensures
        run::<A, VecCollector<A>>(state, items) == (
            state + items,
            ControlFlow::<(), ()>::Continue(()),
        ),
    decreases items.len(),
{
    if items.len() == 0 {
        assert(state + items =~= state);
    } else {
        lemma_vec_collector_run::<A>(state.push(items[0]), items.drop_first());
        assert(state.push(items[0]) + items.drop_first() =~= state + items);
    }
}

/// What a `VecCollector` is ready for and how long it goes on.
pub proof fn lemma_vec_collector_oracle<A>(state: Seq<A>)
    ensures
        readiness::<A, VecCollector<A>>(state) == unconditional::<A>(),
        progress::<A, VecCollector<A>>(state) == unbroken::<A>(),
{
    assert forall|seen: Seq<A>| #[trigger] going_after::<A, VecCollector<A>>(state, seen) by {
        lemma_vec_collector_run::<A>(state, seen);
    }
    assert(readiness::<A, VecCollector<A>>(state) =~= unconditional::<A>());
    assert(progress::<A, VecCollector<A>>(state) =~= unbroken::<A>());
}

impl<A> FromInternalIterator<A> for Vec<A> {
    open spec fn can_build() -> bool {
        true
    }

    open spec fn builds_on() -> spec_fn(Seq<A>) -> bool {
        unbroken()
    }

    open spec fn built_from(&self, items: Seq<A>) -> bool {
        self@ == items
    }

    type Collector = VecCollector<A>;

    open spec fn fresh() -> Seq<A> {
        Seq::empty()
    }

    fn collector() -> (c: VecCollector<A>) {
        proof {
            lemma_vec_collector_oracle::<A>(Seq::empty());
        }
        VecCollector { out: Vec::new() }
    }

    fn finish(signal: ControlFlow<()>, collector: VecCollector<A>) -> (r: Self) {
        proof {
            assert forall|items: Seq<A>| #[trigger]
                run::<A, VecCollector<A>>(Seq::empty(), items) == (
                    collector@,
                    signal,
                ) implies collector@ == items by {
                lemma_vec_collector_run::<A>(Seq::empty(), items);
                assert(Seq::<A>::empty() + items =~= items);
            }
        }
        collector.out
    }

    fn from_iter<T: IntoInternalIterator<Item = A>>(iter: T) -> (r: Self) {
        let source = iter.into_internal_iter();
        let (signal, collector) = source.try_for_each(Self::collector());
        Self::finish(signal, collector)
    }
}

/// `String::push` appends the character to the end of the string.
pub assume_specification[ String::push ](s: &mut String, ch: char)
    ensures
        final(s)@ == old(s)@.push(ch),
;

/// Appends each character to a string.
pub struct StringCollector {
    pub out: String,
}

impl View for StringCollector {
    type V = Seq<char>;

    open spec fn view(&self) -> Seq<char> {
        self.out@
    }
}

impl Consumer<char> for StringCollector {
    type Break = ();

    open spec fn ready(state: Seq<char>, item: char) -> bool {
        true
    }

    open spec fn step(state: Seq<char>, item: char) -> (Seq<char>, ControlFlow<()>) {
        (state.push(item), ControlFlow::Continue(()))
    }

    fn accept(self, item: char) -> (out: (ControlFlow<()>, Self)) {
        let mut out = self.out;
        out.push(item);
        (ControlFlow::Continue(()), StringCollector { out })
    }
}

/// A `StringCollector` ends with the characters appended to what it held.
pub proof fn lemma_string_collector_run(state: Seq<char>, items: Seq<char>)
    ensures
        run::<char, StringCollector>(state, items) == (
            state + items,
            ControlFlow::<(), ()>::Continue(()),
        ),
    decreases items.len(),
{
    if items.len() == 0 {
        assert(state + items =~= state);
    } else {
        lemma_string_collector_run(state.push(items[0]), items.drop_first());
        assert(state.push(items[0]) + items.drop_first() =~= state + items);
    }
}

/// What a `StringCollector` is ready for and how long it goes on.
pub proof fn lemma_string_collector_oracle(state: Seq<char>)
    ensures
        readiness::<char, StringCollector>(state) == unconditional::<char>(),
        progress::<char, StringCollector>(state) == unbroken::<char>(),
{
    assert forall|seen: Seq<char>| #[trigger] going_after::<char, StringCollector>(state, seen) by {
        lemma_string_collector_run(state, seen);
    }
    assert(readiness::<char, StringCollector>(state) =~= unconditional::<char>());
    assert(progress::<char, StringCollector>(state) =~= unbroken::<char>());
}

impl FromInternalIterator<char> for String {
    open spec fn can_build() -> bool {
        true
    }

    open spec fn builds_on() -> spec_fn(Seq<char>) -> bool {
        unbroken()
    }

    open spec fn built_from(&self, items: Seq<char>) -> bool {
        self@ == items
    }

    type Collector = StringCollector;

    open spec fn fresh() -> Seq<char> {
        Seq::empty()
    }

    fn collector() -> (c: StringCollector) {
        proof {
            lemma_string_collector_oracle(Seq::empty());
        }
        StringCollector { out: String::new() }
    }

    fn finish(signal: ControlFlow<()>, collector: StringCollector) -> (r: Self) {
        proof {
            assert forall|items: Seq<char>| #[trigger]
                run::<char, StringCollector>(Seq::empty(), items) == (
                    collector@,
                    signal,
                ) implies collector@ == items by {
                lemma_string_collector_run(Seq::empty(), items);
                assert(Seq::<char>::empty() + items =~= items);
            }
        }
        collector.out
    }

    fn from_iter<T: IntoInternalIterator<Item = char>>(iter: T) -> (r: Self) {
        let source = iter.into_internal_iter();
        let (signal, collector) = source.try_for_each(Self::collector());
        Self::finish(signal, collector)
    }
}

} // verus!
