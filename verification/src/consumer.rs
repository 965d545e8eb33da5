//! Consumers: the callbacks that a traversal feeds, modelled as state
//! machines over their views.
use core::ops::ControlFlow;
use vstd::prelude::*;

verus! {

/// A callback that takes one item at a time and answers with a control
/// signal: `Continue` to be handed the next item, `Break` to stop the
/// traversal and carry a value out of it.
///
/// The view of a consumer is its state. What a consumer does with an item
/// is a function of that state and the item alone.
pub trait Consumer<T>: Sized + View {
    /// The value that a `Break` carries to whoever started the traversal.
    type Break;

    /// Whether a consumer in `state` may be handed `item`.
    spec fn ready(state: Self::V, item: T) -> bool;

    /// The state after `item` was handed to a consumer in `state`, and the
    /// signal that it answers with.
    spec fn step(state: Self::V, item: T) -> (Self::V, ControlFlow<Self::Break>);

    /// Hands `item` to the consumer.
    fn accept(self, item: T) -> (out: (ControlFlow<Self::Break>, Self))
        requires
            Self::ready(self@, item),
        ensures
            (out.1@, out.0) == Self::step(self@, item),
    ;
}

/// The outcome of feeding `items` in order to a consumer in `state`: every
/// item is handed over once, up to and including the first one that the
/// consumer answers with `Break`; no later item is handed over.
pub open spec fn run<T, C: Consumer<T>>(state: C::V, items: Seq<T>) -> (
    C::V,
    ControlFlow<C::Break>,
)
    decreases items.len(),
{
    if items.len() == 0 {
        (state, ControlFlow::Continue(()))
    } else {
        let (next, signal) = C::step(state, items[0]);
        match signal {
            ControlFlow::Break(value) => (next, ControlFlow::Break(value)),
            ControlFlow::Continue(_) => run::<T, C>(next, items.drop_first()),
        }
    }
}

/// Whether a consumer that started in `state` has not broken on `seen`.
pub open spec fn going_after<T, C: Consumer<T>>(state: C::V, seen: Seq<T>) -> bool {
    run::<T, C>(state, seen).1 is Continue
}

/// Whether a consumer that started in `state` and has not broken on `seen`
/// is ready for `item`.
pub open spec fn ready_after<T, C: Consumer<T>>(state: C::V, seen: Seq<T>, item: T) -> bool {
    going_after::<T, C>(state, seen) ==> C::ready(run::<T, C>(state, seen).0, item)
}

/// For a consumer that starts in `state`: whether, with the items that it
/// has been handed, it has not broken.
pub open spec fn progress<T, C: Consumer<T>>(state: C::V) -> spec_fn(Seq<T>) -> bool {
    |seen: Seq<T>| going_after::<T, C>(state, seen)
}

/// For a consumer that starts in `state`: whether, with the items that it
/// has been handed, it is ready for another.
pub open spec fn readiness<T, C: Consumer<T>>(state: C::V) -> spec_fn(Seq<T>, T) -> bool {
    |seen: Seq<T>, item: T| ready_after::<T, C>(state, seen, item)
}

/// Whether a consumer in `state` can be fed any items whatever: it is ready
/// in every state that it can get to from `state`.
pub open spec fn ready_for_any<T, C: Consumer<T>>(state: C::V) -> bool {
    forall|seen: Seq<T>, item: T| #[trigger] ready_after::<T, C>(state, seen, item)
}

/// Whether a consumer is ready whatever it is handed, as long as it goes on.
pub open spec fn safe_for_any<T>(
    ready: spec_fn(Seq<T>, T) -> bool,
    going: spec_fn(Seq<T>) -> bool,
) -> bool {
    forall|seen: Seq<T>, item: T| going(seen) ==> #[trigger] ready(seen, item)
}

/// Whether a consumer is ready whatever it is handed, as long as it goes on
/// and has been handed fewer than `bound` items.
pub open spec fn safe_within<T>(
    bound: nat,
    ready: spec_fn(Seq<T>, T) -> bool,
    going: spec_fn(Seq<T>) -> bool,
) -> bool {
    forall|seen: Seq<T>, item: T|
        going(seen) && seen.len() < bound ==> #[trigger] ready(seen, item)
}

/// Whether some sequence of items takes a consumer from `before` to `after`
/// with `signal` as the outcome.
pub open spec fn reaches<T, C: Consumer<T>>(
    before: C::V,
    after: C::V,
    signal: ControlFlow<C::Break>,
) -> bool {
    exists|items: Seq<T>| #[trigger] run::<T, C>(before, items) == (after, signal)
}

/// The items that take a consumer from `before` to `after` with `signal`.
pub open spec fn witness<T, C: Consumer<T>>(
    before: C::V,
    after: C::V,
    signal: ControlFlow<C::Break>,
) -> Seq<T> {
    choose|items: Seq<T>| #[trigger] run::<T, C>(before, items) == (after, signal)
}

/// Feeding `items` takes a consumer to the outcome of that run.
pub proof fn lemma_reaches<T, C: Consumer<T>>(before: C::V, items: Seq<T>)
    ensures
        reaches::<T, C>(before, run::<T, C>(before, items).0, run::<T, C>(before, items).1),
{
    assert(run::<T, C>(before, items) == (
        run::<T, C>(before, items).0,
        run::<T, C>(before, items).1,
    ));
}

/// Feeding `first + second` is feeding `first` and then, unless the consumer
/// broke, `second`.
pub proof fn lemma_run_concat<T, C: Consumer<T>>(state: C::V, first: Seq<T>, second: Seq<T>)
    ensures
        run::<T, C>(state, first + second) == (if run::<T, C>(state, first).1 is Break {
            run::<T, C>(state, first)
        } else {
            run::<T, C>(run::<T, C>(state, first).0, second)
        }),
    decreases first.len(),
{
    if first.len() == 0 {
        assert(first + second =~= second);
    } else {
        assert((first + second)[0] == first[0]);
        assert((first + second).drop_first() =~= first.drop_first() + second);
        let (next, signal) = C::step(state, first[0]);
        if signal is Continue {
            lemma_run_concat::<T, C>(next, first.drop_first(), second);
        }
    }
}

/// Feeding one item is one step.
pub proof fn lemma_run_one<T, C: Consumer<T>>(state: C::V, item: T)
    ensures
        run::<T, C>(state, seq![item]) == C::step(state, item),
{
    let items = seq![item];
    assert(items[0] == item);
    assert(items.drop_first().len() == 0);
    let (next, signal) = C::step(state, item);
    assert(run::<T, C>(next, items.drop_first()) == (
        next,
        ControlFlow::<C::Break, ()>::Continue(()),
    ));
    match signal {
        ControlFlow::Break(value) => {},
        ControlFlow::Continue(unit) => {
            assert(unit == ());
        },
    }
}

/// Feeding one more item is one more step, unless the consumer has broken.
pub proof fn lemma_run_push<T, C: Consumer<T>>(state: C::V, seen: Seq<T>, item: T)
    ensures
        run::<T, C>(state, seen.push(item)) == (if run::<T, C>(state, seen).1 is Break {
            run::<T, C>(state, seen)
        } else {
            C::step(run::<T, C>(state, seen).0, item)
        }),
{
    lemma_run_concat::<T, C>(state, seen, seq![item]);
    lemma_run_one::<T, C>(run::<T, C>(state, seen).0, item);
    assert(seen + seq![item] =~= seen.push(item));
}

/// Once a consumer has broken on the first `k` items, what follows them
/// makes no difference.
pub proof fn lemma_break_ends_run<T, C: Consumer<T>>(state: C::V, items: Seq<T>, k: int)
    requires
        0 <= k <= items.len(),
        run::<T, C>(state, items.take(k)).1 is Break,
    ensures
        run::<T, C>(state, items) == run::<T, C>(state, items.take(k)),
{
    lemma_run_concat::<T, C>(state, items.take(k), items.skip(k));
    assert(items.take(k) + items.skip(k) =~= items);
}

/// `going`, for a consumer that has been handed `prefix` before.
pub open spec fn going_behind<T>(prefix: Seq<T>, going: spec_fn(Seq<T>) -> bool) -> spec_fn(
    Seq<T>,
) -> bool {
    |seen: Seq<T>| going(prefix + seen)
}

/// `ready`, for a consumer that has been handed `prefix` before.
pub open spec fn ready_behind<T>(prefix: Seq<T>, ready: spec_fn(Seq<T>, T) -> bool) -> spec_fn(
    Seq<T>,
    T,
) -> bool {
    |seen: Seq<T>, item: T| ready(prefix + seen, item)
}

/// A consumer that has gone on through `prefix` is, from there, one that
/// starts in the state that it is in then.
pub proof fn lemma_oracle_behind<T, C: Consumer<T>>(state: C::V, prefix: Seq<T>)
    requires
        going_after::<T, C>(state, prefix),
    ensures
        progress::<T, C>(run::<T, C>(state, prefix).0) == going_behind(
            prefix,
            progress::<T, C>(state),
        ),
        readiness::<T, C>(run::<T, C>(state, prefix).0) == ready_behind(
            prefix,
            readiness::<T, C>(state),
        ),
{
    let middle = run::<T, C>(state, prefix).0;
    let going = going_behind(prefix, progress::<T, C>(state));
    let ready = ready_behind(prefix, readiness::<T, C>(state));
    assert forall|seen: Seq<T>| #[trigger] going_after::<T, C>(middle, seen) == going(seen) by {
        lemma_run_concat::<T, C>(state, prefix, seen);
    }
    assert forall|seen: Seq<T>, item: T| #[trigger]
        ready_after::<T, C>(middle, seen, item) == ready(seen, item) by {
        lemma_run_concat::<T, C>(state, prefix, seen);
    }
    assert(progress::<T, C>(middle) =~= going);
    assert(readiness::<T, C>(middle) =~= ready);
}

/// A consumer that is ready whatever it is handed can be fed anything.
pub proof fn lemma_safe_for_any<T, C: Consumer<T>>(state: C::V)
    requires
        safe_for_any(readiness::<T, C>(state), progress::<T, C>(state)),
    ensures
        ready_for_any::<T, C>(state),
{
    let ready = readiness::<T, C>(state);
    let going = progress::<T, C>(state);
    assert forall|seen: Seq<T>, item: T| #[trigger] ready_after::<T, C>(state, seen, item) by {
        if going_after::<T, C>(state, seen) {
            assert(going(seen));
            assert(ready(seen, item));
        }
    }
}

/// A consumer that can be fed anything is ready for any one item, and can
/// again be fed anything after it.
pub proof fn lemma_ready_for_any_step<T, C: Consumer<T>>(state: C::V, item: T)
    requires
        ready_for_any::<T, C>(state),
    ensures
        C::ready(state, item),
        C::step(state, item).1 is Continue ==> ready_for_any::<T, C>(C::step(state, item).0),
{
    assert(ready_after::<T, C>(state, Seq::empty(), item));
    if C::step(state, item).1 is Continue {
        let next = C::step(state, item).0;
        lemma_run_one::<T, C>(state, item);
        assert forall|seen: Seq<T>, more: T| #[trigger] ready_after::<T, C>(next, seen, more) by {
            assert(ready_after::<T, C>(state, seq![item] + seen, more));
            lemma_run_concat::<T, C>(state, seq![item], seen);
        }
    }
}

/// A run from `before` to `middle` that did not break, and then one from
/// `middle` to `after`, make one run from `before` to `after`.
pub proof fn lemma_reaches_then<T, C: Consumer<T>>(
    before: C::V,
    middle: C::V,
    after: C::V,
    signal: ControlFlow<C::Break>,
)
    requires
        reaches::<T, C>(before, middle, ControlFlow::Continue(())),
        reaches::<T, C>(middle, after, signal),
    ensures
        reaches::<T, C>(before, after, signal),
{
    let first = witness::<T, C>(before, middle, ControlFlow::Continue(()));
    let second = witness::<T, C>(middle, after, signal);
    lemma_run_concat::<T, C>(before, first, second);
    lemma_reaches::<T, C>(before, first + second);
}

} // verus!
