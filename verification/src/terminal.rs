//! The consumers behind the terminal operations, and what each of them has
//! seen after a run.
use crate::consumer::{going_after, progress, readiness, ready_after, run, Consumer};
use crate::func::{RefFn, UnaryFn};
use core::ops::ControlFlow;
use vstd::prelude::*;

verus! {

/// The index of the first of `items` that `pred` holds of.
pub open spec fn first_match<T>(items: Seq<T>, pred: spec_fn(T) -> bool) -> Option<int>
    decreases items.len(),
{
    if items.len() == 0 {
        None
    } else if pred(items[0]) {
        Some(0)
    } else {
        match first_match(items.drop_first(), pred) {
            Some(i) => Some(i + 1),
            None => None,
        }
    }
}

/// `first_match` gives the least index at which `pred` holds, and `None`
/// exactly when it holds nowhere.
pub proof fn lemma_first_match<T>(items: Seq<T>, pred: spec_fn(T) -> bool)
    ensures
        match first_match(items, pred) {
            Some(i) => {
                &&& 0 <= i < items.len()
                &&& pred(items[i])
                &&& forall|j: int| 0 <= j < i ==> !pred(#[trigger] items[j])
            },
            None => forall|j: int| 0 <= j < items.len() ==> !pred(#[trigger] items[j]),
        },
    decreases items.len(),
{
    if items.len() > 0 && !pred(items[0]) {
        let rest = items.drop_first();
        lemma_first_match(rest, pred);
        match first_match(rest, pred) {
            Some(i) => {
                assert forall|j: int| 0 <= j < i + 1 implies !pred(#[trigger] items[j]) by {
                    if j > 0 {
                        assert(items[j] == rest[j - 1]);
                    }
                }
            },
            None => {
                assert forall|j: int| 0 <= j < items.len() implies !pred(#[trigger] items[j]) by {
                    if j > 0 {
                        assert(items[j] == rest[j - 1]);
                    }
                }
            },
        }
    }
}

/// Of a consumer that never breaks: it goes on whatever it has been handed.
pub open spec fn unbroken<T>() -> spec_fn(Seq<T>) -> bool {
    |seen: Seq<T>| true
}

/// Of a consumer that takes anything: it is ready whatever it has been
/// handed and whatever comes.
pub open spec fn unconditional<T>() -> spec_fn(Seq<T>, T) -> bool {
    |seen: Seq<T>, item: T| true
}

/// Whether `pred` holds of none of `seen`.
pub open spec fn none_of<T>(seen: Seq<T>, pred: spec_fn(T) -> bool) -> bool {
    forall|j: int| 0 <= j < seen.len() ==> !pred(#[trigger] seen[j])
}

/// `pred` holds of none of `seen` exactly when there is no first match.
pub proof fn lemma_none_of<T>(seen: Seq<T>, pred: spec_fn(T) -> bool)
    ensures
        none_of(seen, pred) == (first_match(seen, pred) is None),
{
    lemma_first_match(seen, pred);
}

/// Calls a function on every item and never stops the traversal.
pub struct ForEach<F> {
    pub f: F,
}

impl<F> View for ForEach<F> {
    type V = F;

    open spec fn view(&self) -> F {
        self.f
    }
}

impl<T, F: UnaryFn<T>> Consumer<T> for ForEach<F> {
    type Break = ();

    open spec fn ready(state: F, item: T) -> bool {
        state.accepts(item)
    }

    open spec fn step(state: F, item: T) -> (F, ControlFlow<()>) {
        (state, ControlFlow::Continue(()))
    }

    fn accept(self, item: T) -> (out: (ControlFlow<()>, Self)) {
        let mut f = self.f;
        let _ = f.invoke(item);
        (ControlFlow::Continue(()), ForEach { f })
    }
}

/// What `for_each` asks: that `f` accepts each item.
pub open spec fn for_each_ready<T, F: UnaryFn<T>>(f: F) -> spec_fn(Seq<T>, T) -> bool {
    |seen: Seq<T>, item: T| f.accepts(item)
}

/// A `ForEach` keeps its function and never breaks.
pub proof fn lemma_for_each_run<T, F: UnaryFn<T>>(f: F, seen: Seq<T>)
    ensures
        run::<T, ForEach<F>>(f, seen) == (f, ControlFlow::<(), ()>::Continue(())),
    decreases seen.len(),
{
    if seen.len() > 0 {
        lemma_for_each_run::<T, F>(f, seen.drop_first());
    }
}

/// What a `ForEach` is ready for and how long it goes on.
pub proof fn lemma_for_each_oracle<T, F: UnaryFn<T>>(f: F)
    ensures
        readiness::<T, ForEach<F>>(f) == for_each_ready::<T, F>(f),
        progress::<T, ForEach<F>>(f) == unbroken::<T>(),
{
    assert forall|seen: Seq<T>, item: T| #[trigger]
        ready_after::<T, ForEach<F>>(f, seen, item) == f.accepts(item) by {
        lemma_for_each_run::<T, F>(f, seen);
    }
    assert forall|seen: Seq<T>| #[trigger] going_after::<T, ForEach<F>>(f, seen) by {
        lemma_for_each_run::<T, F>(f, seen);
    }
    assert(readiness::<T, ForEach<F>>(f) =~= for_each_ready::<T, F>(f));
    assert(progress::<T, ForEach<F>>(f) =~= unbroken::<T>());
}

/// Counts the items it is handed.
pub struct Counter {
    pub n: usize,
}

impl View for Counter {
    type V = nat;

    open spec fn view(&self) -> nat {
        self.n as nat
    }
}

impl<T> Consumer<T> for Counter {
    type Break = ();

    open spec fn ready(state: nat, item: T) -> bool {
        state < usize::MAX
    }

    open spec fn step(state: nat, item: T) -> (nat, ControlFlow<()>) {
        (state + 1, ControlFlow::Continue(()))
    }

    fn accept(self, item: T) -> (out: (ControlFlow<()>, Self)) {
        (ControlFlow::Continue(()), Counter { n: self.n + 1 })
    }
}

/// A counter that starts at `n` ends at `n` plus the number of items.
pub proof fn lemma_counter_run<T>(n: nat, items: Seq<T>)
    ensures
        run::<T, Counter>(n, items) == (n + items.len(), ControlFlow::<(), ()>::Continue(())),
    decreases items.len(),
{
    if items.len() > 0 {
        lemma_counter_run::<T>(n + 1, items.drop_first());
    }
}

/// What `count` asks: that the number of items fits into a `usize`.
pub open spec fn count_ready<T>() -> spec_fn(Seq<T>, T) -> bool {
    |seen: Seq<T>, item: T| seen.len() < usize::MAX
}

/// What a `Counter` that starts at zero is ready for and how long it goes
/// on.
pub proof fn lemma_counter_oracle<T>()
    ensures
        readiness::<T, Counter>(0) == count_ready::<T>(),
        progress::<T, Counter>(0) == unbroken::<T>(),
{
    assert forall|seen: Seq<T>, item: T| #[trigger]
        ready_after::<T, Counter>(0, seen, item) == (seen.len() < usize::MAX) by {
        lemma_counter_run::<T>(0, seen);
    }
    assert forall|seen: Seq<T>| #[trigger] going_after::<T, Counter>(0, seen) by {
        lemma_counter_run::<T>(0, seen);
    }
    assert(readiness::<T, Counter>(0) =~= count_ready::<T>());
    assert(progress::<T, Counter>(0) =~= unbroken::<T>());
}

/// Stops at the first item on which a function gives `target`.
pub struct Until<F> {
    pub f: F,
    pub target: bool,
}

impl<F> View for Until<F> {
    type V = (F, bool);

    open spec fn view(&self) -> (F, bool) {
        (self.f, self.target)
    }
}

impl<T, F: UnaryFn<T, Output = bool>> Consumer<T> for Until<F> {
    type Break = ();

    open spec fn ready(state: (F, bool), item: T) -> bool {
        state.0.accepts(item)
    }

    open spec fn step(state: (F, bool), item: T) -> ((F, bool), ControlFlow<()>) {
        if state.0.result(item) == state.1 {
            (state, ControlFlow::Break(()))
        } else {
            (state, ControlFlow::Continue(()))
        }
    }

    fn accept(self, item: T) -> (out: (ControlFlow<()>, Self)) {
        let mut f = self.f;
        let hit = f.invoke(item) == self.target;
        let next = Until { f, target: self.target };
        if hit {
            (ControlFlow::Break(()), next)
        } else {
            (ControlFlow::Continue(()), next)
        }
    }
}

/// `Until` keeps its function and breaks exactly when the function gives
/// the target on one of the items.
pub proof fn lemma_until_run<T, F: UnaryFn<T, Output = bool>>(f: F, target: bool, items: Seq<T>)
    ensures
        run::<T, Until<F>>((f, target), items).0 == (f, target),
        going_after::<T, Until<F>>((f, target), items) == none_of(
            items,
            |x: T| f.result(x) == target,
        ),
    decreases items.len(),
{
    let hit = |x: T| f.result(x) == target;
    if items.len() > 0 {
        let rest = items.drop_first();
        lemma_until_run::<T, F>(f, target, rest);
        if f.result(items[0]) == target {
            assert(hit(items[0]));
        } else if none_of(rest, hit) {
            assert forall|j: int| 0 <= j < items.len() implies !hit(#[trigger] items[j]) by {
                if j > 0 {
                    assert(items[j] == rest[j - 1]);
                }
            }
        } else {
            let j = choose|j: int| 0 <= j < rest.len() && hit(#[trigger] rest[j]);
            assert(items[j + 1] == rest[j]);
        }
    }
}

/// How long an `Until` goes on: as long as the function has not given the
/// target.
pub open spec fn until_going<T, F: UnaryFn<T, Output = bool>>(f: F, target: bool) -> spec_fn(
    Seq<T>,
) -> bool {
    |seen: Seq<T>| none_of(seen, |x: T| f.result(x) == target)
}

/// What an `Until` asks: that the function accepts each item that it gets
/// to.
pub open spec fn until_ready<T, F: UnaryFn<T, Output = bool>>(f: F, target: bool) -> spec_fn(
    Seq<T>,
    T,
) -> bool {
    |seen: Seq<T>, item: T| none_of(seen, |x: T| f.result(x) == target) ==> f.accepts(item)
}

/// What an `Until` is ready for and how long it goes on.
pub proof fn lemma_until_oracle<T, F: UnaryFn<T, Output = bool>>(f: F, target: bool)
    ensures
        readiness::<T, Until<F>>((f, target)) == until_ready::<T, F>(f, target),
        progress::<T, Until<F>>((f, target)) == until_going::<T, F>(f, target),
{
    let ready = until_ready::<T, F>(f, target);
    let going = until_going::<T, F>(f, target);
    assert forall|seen: Seq<T>, item: T| #[trigger]
        ready_after::<T, Until<F>>((f, target), seen, item) == ready(seen, item) by {
        lemma_until_run::<T, F>(f, target, seen);
    }
    assert forall|seen: Seq<T>| #[trigger] going_after::<T, Until<F>>((f, target), seen) == going(
        seen,
    ) by {
        lemma_until_run::<T, F>(f, target, seen);
    }
    assert(readiness::<T, Until<F>>((f, target)) =~= ready);
    assert(progress::<T, Until<F>>((f, target)) =~= going);
}

/// Stops at the first item that a function maps to `Some`, with what it
/// holds.
pub struct FindMap<F> {
    pub f: F,
}

impl<F> View for FindMap<F> {
    type V = F;

    open spec fn view(&self) -> F {
        self.f
    }
}

impl<T, R, F: UnaryFn<T, Output = Option<R>>> Consumer<T> for FindMap<F> {
    type Break = R;

    open spec fn ready(state: F, item: T) -> bool {
        state.accepts(item)
    }

    open spec fn step(state: F, item: T) -> (F, ControlFlow<R>) {
        match state.result(item) {
            Some(found) => (state, ControlFlow::Break(found)),
            None => (state, ControlFlow::Continue(())),
        }
    }

    fn accept(self, item: T) -> (out: (ControlFlow<R>, Self)) {
        let mut f = self.f;
        match f.invoke(item) {
            Some(found) => (ControlFlow::Break(found), FindMap { f }),
            None => (ControlFlow::Continue(()), FindMap { f }),
        }
    }
}

/// `FindMap` keeps its function and breaks with what the function gives on
/// the first item that it maps to `Some`.
pub proof fn lemma_find_map_run<T, R, F: UnaryFn<T, Output = Option<R>>>(f: F, items: Seq<T>)
    ensures
        run::<T, FindMap<F>>(f, items).0 == f,
        run::<T, FindMap<F>>(f, items).1 == (match first_match(
            items,
            |x: T| f.result(x) is Some,
        ) {
            Some(i) => ControlFlow::<R, ()>::Break(f.result(items[i])->0),
            None => ControlFlow::<R, ()>::Continue(()),
        }),
    decreases items.len(),
{
    if items.len() > 0 {
        let rest = items.drop_first();
        lemma_find_map_run::<T, R, F>(f, rest);
        lemma_first_match(rest, |x: T| f.result(x) is Some);
    }
}

/// How long a `FindMap` goes on: as long as the function has given `None`.
pub open spec fn find_map_going<T, R, F: UnaryFn<T, Output = Option<R>>>(f: F) -> spec_fn(
    Seq<T>,
) -> bool {
    |seen: Seq<T>| none_of(seen, |x: T| f.result(x) is Some)
}

/// What a `FindMap` asks: that the function accepts each item that it gets
/// to.
pub open spec fn find_map_ready<T, R, F: UnaryFn<T, Output = Option<R>>>(f: F) -> spec_fn(
    Seq<T>,
    T,
) -> bool {
    |seen: Seq<T>, item: T| none_of(seen, |x: T| f.result(x) is Some) ==> f.accepts(item)
}

/// What a `FindMap` is ready for and how long it goes on.
pub proof fn lemma_find_map_oracle<T, R, F: UnaryFn<T, Output = Option<R>>>(f: F)
    ensures
        readiness::<T, FindMap<F>>(f) == find_map_ready::<T, R, F>(f),
        progress::<T, FindMap<F>>(f) == find_map_going::<T, R, F>(f),
{
    let ready = find_map_ready::<T, R, F>(f);
    let going = find_map_going::<T, R, F>(f);
    assert forall|seen: Seq<T>, item: T| #[trigger]
        ready_after::<T, FindMap<F>>(f, seen, item) == ready(seen, item) by {
        lemma_find_map_run::<T, R, F>(f, seen);
        lemma_none_of(seen, |x: T| f.result(x) is Some);
    }
    assert forall|seen: Seq<T>| #[trigger] going_after::<T, FindMap<F>>(f, seen) == going(
        seen,
    ) by {
        lemma_find_map_run::<T, R, F>(f, seen);
        lemma_none_of(seen, |x: T| f.result(x) is Some);
    }
    assert(readiness::<T, FindMap<F>>(f) =~= ready);
    assert(progress::<T, FindMap<F>>(f) =~= going);
}

/// Stops at the first item of which a predicate holds, with that item.
pub struct Find<P> {
    pub predicate: P,
}

impl<P> View for Find<P> {
    type V = P;

    open spec fn view(&self) -> P {
        self.predicate
    }
}

impl<T, P: RefFn<T, Output = bool>> Consumer<T> for Find<P> {
    type Break = T;

    open spec fn ready(state: P, item: T) -> bool {
        state.accepts_ref(item)
    }

    open spec fn step(state: P, item: T) -> (P, ControlFlow<T>) {
        if state.result_ref(item) {
            (state, ControlFlow::Break(item))
        } else {
            (state, ControlFlow::Continue(()))
        }
    }

    fn accept(self, item: T) -> (out: (ControlFlow<T>, Self)) {
        let mut predicate = self.predicate;
        if predicate.invoke_ref(&item) {
            (ControlFlow::Break(item), Find { predicate })
        } else {
            (ControlFlow::Continue(()), Find { predicate })
        }
    }
}

/// `Find` keeps its predicate and breaks with the first item of which the
/// predicate holds.
pub proof fn lemma_find_run<T, P: RefFn<T, Output = bool>>(predicate: P, items: Seq<T>)
    ensures
        run::<T, Find<P>>(predicate, items).0 == predicate,
        run::<T, Find<P>>(predicate, items).1 == (match first_match(
            items,
            |x: T| predicate.result_ref(x),
        ) {
            Some(i) => ControlFlow::<T, ()>::Break(items[i]),
            None => ControlFlow::<T, ()>::Continue(()),
        }),
    decreases items.len(),
{
    if items.len() > 0 {
        let rest = items.drop_first();
        lemma_find_run::<T, P>(predicate, rest);
        lemma_first_match(rest, |x: T| predicate.result_ref(x));
    }
}

/// How long a `Find` goes on: as long as the predicate has not held.
pub open spec fn find_going<T, P: RefFn<T, Output = bool>>(predicate: P) -> spec_fn(
    Seq<T>,
) -> bool {
    |seen: Seq<T>| none_of(seen, |x: T| predicate.result_ref(x))
}

/// What a `Find` asks: that the predicate accepts each item that it gets
/// to.
pub open spec fn find_ready<T, P: RefFn<T, Output = bool>>(predicate: P) -> spec_fn(
    Seq<T>,
    T,
) -> bool {
    |seen: Seq<T>, item: T|
        none_of(seen, |x: T| predicate.result_ref(x)) ==> predicate.accepts_ref(item)
}

/// What a `Find` is ready for and how long it goes on.
pub proof fn lemma_find_oracle<T, P: RefFn<T, Output = bool>>(predicate: P)
    ensures
        readiness::<T, Find<P>>(predicate) == find_ready::<T, P>(predicate),
        progress::<T, Find<P>>(predicate) == find_going::<T, P>(predicate),
{
    let ready = find_ready::<T, P>(predicate);
    let going = find_going::<T, P>(predicate);
    assert forall|seen: Seq<T>, item: T| #[trigger]
        ready_after::<T, Find<P>>(predicate, seen, item) == ready(seen, item) by {
        lemma_find_run::<T, P>(predicate, seen);
        lemma_none_of(seen, |x: T| predicate.result_ref(x));
    }
    assert forall|seen: Seq<T>| #[trigger] going_after::<T, Find<P>>(predicate, seen) == going(
        seen,
    ) by {
        lemma_find_run::<T, P>(predicate, seen);
        lemma_none_of(seen, |x: T| predicate.result_ref(x));
    }
    assert(readiness::<T, Find<P>>(predicate) =~= ready);
    assert(progress::<T, Find<P>>(predicate) =~= going);
}

/// Stops at the first item of which a function holds, with the number of
/// items that came before it.
pub struct Position<F> {
    pub f: F,
    pub index: usize,
}

impl<F> View for Position<F> {
    type V = (F, nat);

    open spec fn view(&self) -> (F, nat) {
        (self.f, self.index as nat)
    }
}

impl<T, F: UnaryFn<T, Output = bool>> Consumer<T> for Position<F> {
    type Break = usize;

    open spec fn ready(state: (F, nat), item: T) -> bool {
        &&& state.0.accepts(item)
        &&& state.1 <= usize::MAX
        &&& !state.0.result(item) ==> state.1 < usize::MAX
    }

    open spec fn step(state: (F, nat), item: T) -> ((F, nat), ControlFlow<usize>) {
        if state.0.result(item) {
            (state, ControlFlow::Break(state.1 as usize))
        } else {
            ((state.0, state.1 + 1), ControlFlow::Continue(()))
        }
    }

    fn accept(self, item: T) -> (out: (ControlFlow<usize>, Self)) {
        let mut f = self.f;
        if f.invoke(item) {
            (ControlFlow::Break(self.index), Position { f, index: self.index })
        } else {
            (ControlFlow::Continue(()), Position { f, index: self.index + 1 })
        }
    }
}

/// `Position` breaks with the index of the first item of which the
/// function holds, counted from where it started; as long as there is none,
/// it has counted the items.
pub proof fn lemma_position_run<T, F: UnaryFn<T, Output = bool>>(f: F, start: nat, items: Seq<T>)
    ensures
        match first_match(items, |x: T| f.result(x)) {
            Some(i) => run::<T, Position<F>>((f, start), items).1 == ControlFlow::<
                usize,
                (),
            >::Break((start + i) as usize),
            None => run::<T, Position<F>>((f, start), items) == (
                (f, start + items.len()),
                ControlFlow::<usize, ()>::Continue(()),
            ),
        },
    decreases items.len(),
{
    if items.len() > 0 && !f.result(items[0]) {
        let rest = items.drop_first();
        lemma_position_run::<T, F>(f, start + 1, rest);
        lemma_first_match(rest, |x: T| f.result(x));
    }
}

/// How long a `Position` goes on: as long as the function has not held.
pub open spec fn position_going<T, F: UnaryFn<T, Output = bool>>(f: F) -> spec_fn(Seq<T>) -> bool {
    |seen: Seq<T>| none_of(seen, |x: T| f.result(x))
}

/// What a `Position` asks: that the function accepts each item that it
/// gets to, and that the index of each of them fits into a `usize`.
pub open spec fn position_ready<T, F: UnaryFn<T, Output = bool>>(f: F) -> spec_fn(
    Seq<T>,
    T,
) -> bool {
    |seen: Seq<T>, item: T|
        none_of(seen, |x: T| f.result(x)) ==> {
            &&& f.accepts(item)
            &&& seen.len() <= usize::MAX
            &&& !f.result(item) ==> seen.len() < usize::MAX
        }
}

/// What a `Position` that starts at zero is ready for and how long it goes
/// on.
pub proof fn lemma_position_oracle<T, F: UnaryFn<T, Output = bool>>(f: F)
    ensures
        readiness::<T, Position<F>>((f, 0)) == position_ready::<T, F>(f),
        progress::<T, Position<F>>((f, 0)) == position_going::<T, F>(f),
{
    let ready = position_ready::<T, F>(f);
    let going = position_going::<T, F>(f);
    assert forall|seen: Seq<T>, item: T| #[trigger]
        ready_after::<T, Position<F>>((f, 0), seen, item) == ready(seen, item) by {
        lemma_position_run::<T, F>(f, 0, seen);
        lemma_none_of(seen, |x: T| f.result(x));
    }
    assert forall|seen: Seq<T>| #[trigger] going_after::<T, Position<F>>((f, 0), seen) == going(
        seen,
    ) by {
        lemma_position_run::<T, F>(f, 0, seen);
        lemma_none_of(seen, |x: T| f.result(x));
    }
    assert(readiness::<T, Position<F>>((f, 0)) =~= ready);
    assert(progress::<T, Position<F>>((f, 0)) =~= going);
}

/// Stops at the first item, with that item.
pub struct First {}

impl View for First {
    type V = ();

    open spec fn view(&self) -> () {
        ()
    }
}

impl<T> Consumer<T> for First {
    type Break = T;

    open spec fn ready(state: (), item: T) -> bool {
        true
    }

    open spec fn step(state: (), item: T) -> ((), ControlFlow<T>) {
        ((), ControlFlow::Break(item))
    }

    fn accept(self, item: T) -> (out: (ControlFlow<T>, Self)) {
        (ControlFlow::Break(item), self)
    }
}

/// How long a `First` goes on: until it has been handed an item.
pub open spec fn first_going<T>() -> spec_fn(Seq<T>) -> bool {
    |seen: Seq<T>| seen.len() == 0
}

/// What a `First` is ready for and how long it goes on.
pub proof fn lemma_first_oracle<T>()
    ensures
        readiness::<T, First>(()) == unconditional::<T>(),
        progress::<T, First>(()) == first_going::<T>(),
{
    assert(readiness::<T, First>(()) =~= unconditional::<T>());
    assert(progress::<T, First>(()) =~= first_going::<T>());
}

/// Lets a number of items pass and stops at the one after them, with that
/// item.
pub struct Nth {
    pub n: usize,
}

impl View for Nth {
    type V = nat;

    open spec fn view(&self) -> nat {
        self.n as nat
    }
}

impl<T> Consumer<T> for Nth {
    type Break = T;

    open spec fn ready(state: nat, item: T) -> bool {
        true
    }

    open spec fn step(state: nat, item: T) -> (nat, ControlFlow<T>) {
        if state == 0 {
            (state, ControlFlow::Break(item))
        } else {
            ((state - 1) as nat, ControlFlow::Continue(()))
        }
    }

    fn accept(self, item: T) -> (out: (ControlFlow<T>, Self)) {
        if self.n == 0 {
            (ControlFlow::Break(item), self)
        } else {
            (ControlFlow::Continue(()), Nth { n: self.n - 1 })
        }
    }
}

/// `Nth` breaks with the item at index `n`, if there is one.
pub proof fn lemma_nth_run<T>(n: nat, items: Seq<T>)
    ensures
        run::<T, Nth>(n, items).1 == (if n < items.len() {
            ControlFlow::<T, ()>::Break(items[n as int])
        } else {
            ControlFlow::<T, ()>::Continue(())
        }),
    decreases items.len(),
{
    if items.len() > 0 && n > 0 {
        lemma_nth_run::<T>((n - 1) as nat, items.drop_first());
    }
}

/// How long an `Nth` goes on: until it has been handed the item at index
/// `n`.
pub open spec fn nth_going<T>(n: nat) -> spec_fn(Seq<T>) -> bool {
    |seen: Seq<T>| seen.len() <= n
}

/// What an `Nth` is ready for and how long it goes on.
pub proof fn lemma_nth_oracle<T>(n: nat)
    ensures
        readiness::<T, Nth>(n) == unconditional::<T>(),
        progress::<T, Nth>(n) == nth_going::<T>(n),
{
    assert forall|seen: Seq<T>| #[trigger] going_after::<T, Nth>(n, seen) == (seen.len() <= n) by {
        lemma_nth_run::<T>(n, seen);
    }
    assert(readiness::<T, Nth>(n) =~= unconditional::<T>());
    assert(progress::<T, Nth>(n) =~= nth_going::<T>(n));
}

/// Keeps the item it was handed last.
pub struct Last<T> {
    pub slot: Option<T>,
}

impl<T> View for Last<T> {
    type V = Option<T>;

    open spec fn view(&self) -> Option<T> {
        self.slot
    }
}

impl<T> Consumer<T> for Last<T> {
    type Break = ();

    open spec fn ready(state: Option<T>, item: T) -> bool {
        true
    }

    open spec fn step(state: Option<T>, item: T) -> (Option<T>, ControlFlow<()>) {
        (Some(item), ControlFlow::Continue(()))
    }

    fn accept(self, item: T) -> (out: (ControlFlow<()>, Self)) {
        (ControlFlow::Continue(()), Last { slot: Some(item) })
    }
}

/// `Last` ends with the last of the items, or with what it held where there
/// are none.
pub proof fn lemma_last_run<T>(slot: Option<T>, items: Seq<T>)
    ensures
        run::<T, Last<T>>(slot, items) == (
            if items.len() == 0 {
                slot
            } else {
                Some(items.last())
            },
            ControlFlow::<(), ()>::Continue(()),
        ),
    decreases items.len(),
{
    if items.len() > 0 {
        let rest = items.drop_first();
        lemma_last_run::<T>(Some(items[0]), rest);
        if rest.len() > 0 {
            assert(rest.last() == items.last());
        }
    }
}

/// What a `Last` is ready for and how long it goes on.
pub proof fn lemma_last_oracle<T>(slot: Option<T>)
    ensures
        readiness::<T, Last<T>>(slot) == unconditional::<T>(),
        progress::<T, Last<T>>(slot) == unbroken::<T>(),
{
    assert forall|seen: Seq<T>| #[trigger] going_after::<T, Last<T>>(slot, seen) by {
        lemma_last_run::<T>(slot, seen);
    }
    assert(readiness::<T, Last<T>>(slot) =~= unconditional::<T>());
    assert(progress::<T, Last<T>>(slot) =~= unbroken::<T>());
}

} // verus!
