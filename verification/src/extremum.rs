//! The consumer behind `max`, `min`, `max_by` and `min_by`, and what these
//! return.
use crate::consumer::{going_after, progress, readiness, ready_after, run, Consumer};
use crate::terminal::unbroken;
use crate::func::{max_by, min_by, Comparator};
use core::cmp::Ordering;
use core::ops::ControlFlow;
use vstd::prelude::*;

verus! {

/// Which of the extremum so far and a new item is kept.
///
/// For the greatest, the new item is kept unless it is less than the one
/// held: of equal items the last one stays. For the least, the one held is
/// kept unless it is greater than the new item: of equal items the first one
/// stays.
pub open spec fn pick<T, F: Comparator<T>>(compare: F, greatest: bool, held: T, item: T) -> T {
    if greatest {
        if compare.order(item, held) == Ordering::Less {
            held
        } else {
            item
        }
    } else {
        if compare.order(held, item) == Ordering::Greater {
            item
        } else {
            held
        }
    }
}

/// What is held after `item` came to `held`.
pub open spec fn pick_next<T, F: Comparator<T>>(
    compare: F,
    greatest: bool,
    held: Option<T>,
    item: T,
) -> T {
    match held {
        None => item,
        Some(current) => pick(compare, greatest, current, item),
    }
}

/// The extremum of `held` and `items`, taken from left to right.
pub open spec fn best_of<T, F: Comparator<T>>(
    compare: F,
    greatest: bool,
    held: Option<T>,
    items: Seq<T>,
) -> Option<T>
    decreases items.len(),
{
    if items.len() == 0 {
        held
    } else {
        best_of(
            compare,
            greatest,
            Some(pick_next(compare, greatest, held, items[0])),
            items.drop_first(),
        )
    }
}

/// Whether `compare` may be called with `item` and what is held.
pub open spec fn pick_ready<T, F: Comparator<T>>(
    compare: F,
    greatest: bool,
    held: Option<T>,
    item: T,
) -> bool {
    held matches Some(current) ==> if greatest {
        compare.decides(item, current)
    } else {
        compare.decides(current, item)
    }
}

/// Keeps the greatest or the least of the items it is handed.
pub struct Best<T, F> {
    pub compare: F,
    pub greatest: bool,
    pub held: Option<T>,
}

impl<T, F> View for Best<T, F> {
    type V = (F, bool, Option<T>);

    open spec fn view(&self) -> (F, bool, Option<T>) {
        (self.compare, self.greatest, self.held)
    }
}

impl<T, F: Comparator<T>> Consumer<T> for Best<T, F> {
    type Break = ();

    open spec fn ready(state: (F, bool, Option<T>), item: T) -> bool {
        pick_ready(state.0, state.1, state.2, item)
    }

    open spec fn step(state: (F, bool, Option<T>), item: T) -> (
        (F, bool, Option<T>),
        ControlFlow<()>,
    ) {
        (
            (state.0, state.1, Some(pick_next(state.0, state.1, state.2, item))),
            ControlFlow::Continue(()),
        )
    }

    fn accept(self, item: T) -> (out: (ControlFlow<()>, Self)) {
        let mut compare = self.compare;
        let next = match self.held {
            None => item,
            Some(current) => if self.greatest {
                max_by(item, current, &mut compare)
            } else {
                min_by(current, item, &mut compare)
            },
        };
        (ControlFlow::Continue(()), Best { compare, greatest: self.greatest, held: Some(next) })
    }
}

/// `Best` never breaks and ends with the extremum of what it held and the
/// items.
pub proof fn lemma_best_run<T, F: Comparator<T>>(
    compare: F,
    greatest: bool,
    held: Option<T>,
    items: Seq<T>,
)
    ensures
        run::<T, Best<T, F>>((compare, greatest, held), items) == (
            (compare, greatest, best_of(compare, greatest, held, items)),
            ControlFlow::<(), ()>::Continue(()),
        ),
    decreases items.len(),
{
    if items.len() > 0 {
        lemma_best_run::<T, F>(
            compare,
            greatest,
            Some(pick_next(compare, greatest, held, items[0])),
            items.drop_first(),
        );
    }
}

/// What taking an extremum asks: that the comparator decides each item
/// against the extremum of those before it.
pub open spec fn best_ready<T, F: Comparator<T>>(compare: F, greatest: bool) -> spec_fn(
    Seq<T>,
    T,
) -> bool {
    |seen: Seq<T>, item: T|
        pick_ready(compare, greatest, best_of(compare, greatest, None, seen), item)
}

/// What a `Best` that holds nothing yet is ready for and how long it goes
/// on.
pub proof fn lemma_best_oracle<T, F: Comparator<T>>(compare: F, greatest: bool)
    ensures
        readiness::<T, Best<T, F>>((compare, greatest, None)) == best_ready::<T, F>(
            compare,
            greatest,
        ),
        progress::<T, Best<T, F>>((compare, greatest, None)) == unbroken::<T>(),
{
    let ready = best_ready::<T, F>(compare, greatest);
    assert forall|seen: Seq<T>, item: T| #[trigger]
        ready_after::<T, Best<T, F>>((compare, greatest, None), seen, item) == ready(
            seen,
            item,
        ) by {
        lemma_best_run::<T, F>(compare, greatest, None, seen);
    }
    assert forall|seen: Seq<T>| #[trigger]
        going_after::<T, Best<T, F>>((compare, greatest, None), seen) by {
        lemma_best_run::<T, F>(compare, greatest, None, seen);
    }
    assert(readiness::<T, Best<T, F>>((compare, greatest, None)) =~= ready);
    assert(progress::<T, Best<T, F>>((compare, greatest, None)) =~= unbroken::<T>());
}

} // verus!
