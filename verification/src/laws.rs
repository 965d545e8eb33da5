//! What holds of every traversal, whatever the iterator and the consumer.
use crate::adaptors::chain::Chain;
use crate::adaptors::filter::Filter;
use crate::adaptors::map::{map_items, MapConsumer, Mapped};
use crate::adaptors::take::{take_going, take_items, Take, TakeConsumer};
use crate::consumer::{lemma_break_ends_run, run, Consumer};
use crate::convert::{lemma_vec_collector_run, VecCollector};
use crate::extremum::best_of;
use crate::func::{Comparator, RefFn, UnaryFn};
use crate::iterator::InternalIterator;
use crate::terminal::{Counter, Last, Nth};
use core::cmp::Ordering;
use core::ops::ControlFlow;
use vstd::prelude::*;

verus! {

/// The number of `items` that a consumer in `state` is handed: all of them
/// up to and including the first one that it breaks on.
pub open spec fn handed<T, C: Consumer<T>>(state: C::V, items: Seq<T>) -> nat
    decreases items.len(),
{
    if items.len() == 0 {
        0
    } else if C::step(state, items[0]).1 is Break {
        1
    } else {
        1 + handed::<T, C>(C::step(state, items[0]).0, items.drop_first())
    }
}

/// No item is handed over twice, and none after a `Break`: a run is the run
/// over the items that were handed over, which are the first so many of
/// them. Where the consumer never breaks, that is all of them; where it
/// breaks, it is on the last one that it was handed.
pub proof fn law_no_double_delivery<T, C: Consumer<T>>(state: C::V, items: Seq<T>)
    ensures
        handed::<T, C>(state, items) <= items.len(),
        run::<T, C>(state, items) == run::<T, C>(
            state,
            items.take(handed::<T, C>(state, items) as int),
        ),
        run::<T, C>(state, items).1 is Continue ==> handed::<T, C>(state, items) == items.len(),
        run::<T, C>(state, items).1 is Break ==> handed::<T, C>(state, items) > 0,
    decreases items.len(),
{
    let n = handed::<T, C>(state, items);
    if items.len() == 0 {
        assert(items.take(0) =~= items);
    } else {
        let rest = items.drop_first();
        let (next, signal) = C::step(state, items[0]);
        let prefix = items.take(n as int);
        if signal is Break {
            assert(prefix.len() == 1 && prefix[0] == items[0]);
        } else {
            law_no_double_delivery::<T, C>(next, rest);
            let m = handed::<T, C>(next, rest);
            assert(prefix[0] == items[0]);
            assert(prefix.drop_first() =~= rest.take(m as int));
        }
    }
}

/// A map is handed as many items as the consumer behind it: its function is
/// called once for each item that the traversal gets to, and for no other.
pub proof fn law_map_calls<T, F: UnaryFn<T>, C: Consumer<F::Output>>(
    f: F,
    state: C::V,
    items: Seq<T>,
)
    ensures
        handed::<T, MapConsumer<F, C>>((f, state), items) == handed::<F::Output, C>(
            state,
            map_items(f, items),
        ),
    decreases items.len(),
{
    if items.len() > 0 {
        let mapped = map_items(f, items);
        assert(mapped[0] == f.result(items[0]));
        assert(mapped.drop_first() =~= map_items(f, items.drop_first()));
        law_map_calls::<T, F, C>(f, C::step(state, mapped[0]).0, items.drop_first());
    }
}

/// Counting takes every item.
pub proof fn law_count_takes_all<T>(n: nat, items: Seq<T>)
    ensures
        handed::<T, Counter>(n, items) == items.len(),
    decreases items.len(),
{
    if items.len() > 0 {
        law_count_takes_all::<T>(n + 1, items.drop_first());
    }
}

/// Asking for the last item takes every item.
pub proof fn law_last_takes_all<T>(slot: Option<T>, items: Seq<T>)
    ensures
        handed::<T, Last<T>>(slot, items) == items.len(),
    decreases items.len(),
{
    if items.len() > 0 {
        law_last_takes_all::<T>(Some(items[0]), items.drop_first());
    }
}

/// Asking for the item at index `n` takes the items up to that one, or all
/// of them where there is none.
pub proof fn law_nth_takes_up_to<T>(n: nat, items: Seq<T>)
    ensures
        handed::<T, Nth>(n, items) == if n < items.len() {
            n + 1
        } else {
            items.len()
        },
    decreases items.len(),
{
    if items.len() > 0 && n > 0 {
        law_nth_takes_up_to::<T>((n - 1) as nat, items.drop_first());
    }
}

/// `take(n)` yields the first `n` items in their order, or all of them
/// where there are fewer.
pub proof fn law_take_exact<I: InternalIterator>(iter: I, n: usize)
    ensures
        ({
            let taken = (Take { iter, n }).items();
            let source = iter.items();
            &&& taken.len() == if n <= source.len() {
                n as nat
            } else {
                source.len()
            }
            &&& forall|i: int| 0 <= i < taken.len() ==> taken[i] == source[i]
        }),
{
}

/// With more than `n` items to come, the consumer that `take(n)` drives the
/// source with breaks on the `n`-th: the source is not asked for another.
pub proof fn law_take_stops_source<T, C: Consumer<T>>(n: nat, state: C::V, items: Seq<T>)
    requires
        0 < n <= items.len(),
    ensures
        run::<T, TakeConsumer<C>>((n, state), items.take(n as int)).1 is Break,
        run::<T, TakeConsumer<C>>((n, state), items) == run::<T, TakeConsumer<C>>(
            (n, state),
            items.take(n as int),
        ),
        handed::<T, TakeConsumer<C>>((n, state), items) <= n,
{
    lemma_take_prefix_breaks::<T, C>(n, state, items.take(n as int));
    lemma_break_ends_run::<T, TakeConsumer<C>>((n, state), items, n as int);
    lemma_handed_bound::<T, C>(n, state, items);
}

/// A `TakeConsumer` that is to take `n` breaks on any `n` items.
proof fn lemma_take_prefix_breaks<T, C: Consumer<T>>(n: nat, state: C::V, items: Seq<T>)
    requires
        0 < n == items.len(),
    ensures
        run::<T, TakeConsumer<C>>((n, state), items).1 is Break,
    decreases items.len(),
{
    let (next, signal) = C::step(state, items[0]);
    if signal is Continue && n > 1 {
        lemma_take_prefix_breaks::<T, C>((n - 1) as nat, next, items.drop_first());
    }
}

/// A `TakeConsumer` that is to take `n` is handed no more than `n` items.
proof fn lemma_handed_bound<T, C: Consumer<T>>(n: nat, state: C::V, items: Seq<T>)
    requires
        0 < n,
    ensures
        handed::<T, TakeConsumer<C>>((n, state), items) <= n,
    decreases items.len(),
{
    if items.len() > 0 {
        let (next, signal) = C::step(state, items[0]);
        if signal is Continue && n > 1 {
            lemma_handed_bound::<T, C>((n - 1) as nat, next, items.drop_first());
        }
    }
}

/// `take(0)` may be driven whatever the source and the consumer are, also
/// over a source that may not be driven itself, and yields nothing.
pub proof fn law_take_nothing<I: InternalIterator>(
    iter: I,
    ready: spec_fn(Seq<I::Item>, I::Item) -> bool,
    going: spec_fn(Seq<I::Item>) -> bool,
)
    ensures
        (Take { iter, n: 0 }).safe(ready, going),
        (Take { iter, n: 0 }).exact(),
        (Take { iter, n: 0 }).items() == Seq::<I::Item>::empty(),
{
    assert(take_items(0, iter.items()) =~= Seq::<I::Item>::empty());
}

/// `take(n)` asks of its source what a consumer asks that stops after `n`
/// items: nothing is asked of what lies behind them.
pub proof fn law_take_asks_no_more<T>(n: nat, going: spec_fn(Seq<T>) -> bool, seen: Seq<T>)
    requires
        seen.len() >= n,
    ensures
        !take_going(n, going)(seen),
{
}

/// A chain yields the items of its first iterator and then those of its
/// second.
pub proof fn law_chain_order<A: InternalIterator, B: InternalIterator<Item = A::Item>>(
    first: A,
    second: B,
)
    ensures
        (Chain { first, second }).items() == first.items() + second.items(),
{
}

/// A filter behind a map sees the mapped values.
pub proof fn law_filter_after_map<
    I: InternalIterator,
    F: UnaryFn<I::Item>,
    P: RefFn<F::Output, Output = bool>,
>(iter: I, f: F, predicate: P)
    ensures
        (Filter { iter: Mapped { iter, f }, predicate }).items() == iter.items().map_values(
            |x: I::Item| f.result(x),
        ).filter(|y: F::Output| predicate.result_ref(y)),
{
}

/// Of two items that compare as equal, the greatest is the second.
pub proof fn law_max_keeps_last<T, F: Comparator<T>>(compare: F, a: T, b: T)
    requires
        compare.order(b, a) == Ordering::Equal,
    ensures
        best_of(compare, true, None, seq![a, b]) == Some(b),
{
    reveal_with_fuel(best_of, 3);
    let items = seq![a, b];
    assert(items[0] == a);
    assert(items.drop_first()[0] == b);
    assert(items.drop_first().drop_first().len() == 0);
}

/// Of two items that compare as equal, the least is the first.
pub proof fn law_min_keeps_first<T, F: Comparator<T>>(compare: F, a: T, b: T)
    requires
        compare.order(a, b) == Ordering::Equal,
    ensures
        best_of(compare, false, None, seq![a, b]) == Some(a),
{
    reveal_with_fuel(best_of, 3);
    let items = seq![a, b];
    assert(items[0] == a);
    assert(items.drop_first()[0] == b);
    assert(items.drop_first().drop_first().len() == 0);
}

/// Collecting into a vector keeps the items and their order, whatever
/// source they come from: fed to an empty collector, they are what it
/// holds in the end.
pub proof fn law_round_trip<T>(items: Seq<T>)
    ensures
        run::<T, VecCollector<T>>(Seq::empty(), items) == (
            items,
            ControlFlow::<(), ()>::Continue(()),
        ),
{
    lemma_vec_collector_run::<T>(Seq::empty(), items);
    assert(Seq::<T>::empty() + items =~= items);
}

/// A vector that is collected from a vector holds the same items in the
/// same order.
pub proof fn law_vec_round_trip<T>(source: Vec<T>, collected: Vec<T>)
    requires
        crate::convert::FromInternalIterator::built_from(&collected, source.items()),
    ensures
        collected@ == source@,
{
}

} // verus!
