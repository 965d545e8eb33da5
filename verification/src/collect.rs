//! Collecting into sets and maps, and collecting fallible items.
use crate::consumer::{going_after, progress, readiness, run, Consumer};
use crate::convert::{FromInternalIterator, IntoInternalIterator};
use crate::iterator::InternalIterator;
use crate::terminal::{
    first_match, lemma_first_match, lemma_none_of, none_of, unbroken, unconditional,
};
use core::hash::Hash;
use core::ops::ControlFlow;
use std::collections::{BTreeMap, BTreeSet, HashMap, HashSet};
use std::hash::RandomState;
use vstd::laws_cmp::obeys_cmp;
use vstd::prelude::*;
use vstd::std_specs::hash::{builds_valid_hashers, obeys_key_model};

verus! {

/// The map that putting `pairs` one by one into `map` gives: of two pairs
/// with the same key, the later one stays.
pub open spec fn insert_all<K, V>(map: Map<K, V>, pairs: Seq<(K, V)>) -> Map<K, V>
    decreases pairs.len(),
{
    if pairs.len() == 0 {
        map
    } else {
        insert_all(map.insert(pairs[0].0, pairs[0].1), pairs.drop_first())
    }
}

/// The elements of a sequence are its first one and those of the rest.
pub proof fn lemma_to_set_first<A>(items: Seq<A>)
    requires
        items.len() > 0,
    ensures
        items.to_set() == items.drop_first().to_set().insert(items[0]),
{
    let rest = items.drop_first();
    assert forall|a: A| items.to_set().contains(a) <==> rest.to_set().insert(items[0]).contains(
        a,
    ) by {
        if items.contains(a) {
            let i = choose|i: int| 0 <= i < items.len() && items[i] == a;
            if i > 0 {
                assert(rest[i - 1] == a);
            }
        }
        if rest.contains(a) {
            let i = choose|i: int| 0 <= i < rest.len() && rest[i] == a;
            assert(items[i + 1] == a);
        }
        if a == items[0] {
            assert(items.contains(a));
        }
    }
    assert(items.to_set() =~= rest.to_set().insert(items[0]));
}

/// Puts each item into a hash set.
pub struct HashSetCollector<A> {
    pub out: HashSet<A>,
}

impl<A> View for HashSetCollector<A> {
    type V = Set<A>;

    open spec fn view(&self) -> Set<A> {
        self.out@
    }
}

impl<A: Eq + Hash> Consumer<A> for HashSetCollector<A> {
    type Break = ();

    open spec fn ready(state: Set<A>, item: A) -> bool {
        obeys_key_model::<A>() && builds_valid_hashers::<RandomState>()
    }

    open spec fn step(state: Set<A>, item: A) -> (Set<A>, ControlFlow<()>) {
        (state.insert(item), ControlFlow::Continue(()))
    }

    fn accept(self, item: A) -> (out: (ControlFlow<()>, Self)) {
        let mut out = self.out;
        let _ = out.insert(item);
        (ControlFlow::Continue(()), HashSetCollector { out })
    }
}

/// A `HashSetCollector` ends with the items added to what it held.
pub proof fn lemma_hash_set_collector_run<A: Eq + Hash>(state: Set<A>, items: Seq<A>)
    ensures
        run::<A, HashSetCollector<A>>(state, items) == (
            state.union(items.to_set()),
            ControlFlow::<(), ()>::Continue(()),
        ),
    decreases items.len(),
{
    if items.len() == 0 {
        assert(items.to_set() =~= Set::<A>::empty());
        assert(state.union(items.to_set()) =~= state);
    } else {
        let rest = items.drop_first();
        lemma_hash_set_collector_run::<A>(state.insert(items[0]), rest);
        lemma_to_set_first(items);
        assert(state.insert(items[0]).union(rest.to_set()) =~= state.union(items.to_set()));
    }
}

/// What a `HashSetCollector` is ready for, where the items can be hashed,
/// and how long it goes on.
pub proof fn lemma_hash_set_collector_oracle<A: Eq + Hash>(state: Set<A>)
    requires
        obeys_key_model::<A>(),
    ensures
        readiness::<A, HashSetCollector<A>>(state) == unconditional::<A>(),
        progress::<A, HashSetCollector<A>>(state) == unbroken::<A>(),
{
    broadcast use vstd::std_specs::hash::axiom_random_state_builds_valid_hashers;

    assert forall|seen: Seq<A>| #[trigger] going_after::<A, HashSetCollector<A>>(state, seen) by {
        lemma_hash_set_collector_run::<A>(state, seen);
    }
    assert(readiness::<A, HashSetCollector<A>>(state) =~= unconditional::<A>());
    assert(progress::<A, HashSetCollector<A>>(state) =~= unbroken::<A>());
}

impl<A: Eq + Hash> FromInternalIterator<A> for HashSet<A> {
    open spec fn can_build() -> bool {
        obeys_key_model::<A>()
    }

    open spec fn builds_on() -> spec_fn(Seq<A>) -> bool {
        unbroken()
    }

    open spec fn built_from(&self, items: Seq<A>) -> bool {
        self@ == items.to_set()
    }

    type Collector = HashSetCollector<A>;

    open spec fn fresh() -> Set<A> {
        Set::empty()
    }

    fn collector() -> (c: HashSetCollector<A>) {
        broadcast use vstd::std_specs::hash::axiom_random_state_builds_valid_hashers;

        proof {
            lemma_hash_set_collector_oracle::<A>(Set::empty());
        }
        HashSetCollector { out: HashSet::new() }
    }

    fn finish(signal: ControlFlow<()>, collector: HashSetCollector<A>) -> (r: Self) {
        proof {
            assert forall|items: Seq<A>| #[trigger]
                run::<A, HashSetCollector<A>>(Set::empty(), items) == (
                    collector@,
                    signal,
                ) implies collector@ == items.to_set() by {
                lemma_hash_set_collector_run::<A>(Set::empty(), items);
                assert(Set::<A>::empty().union(items.to_set()) =~= items.to_set());
            }
        }
        collector.out
    }

    fn from_iter<T: IntoInternalIterator<Item = A>>(iter: T) -> (r: Self) {
        let source = iter.into_internal_iter();
        let (signal, collector) = source.try_for_each(Self::collector());
        Self::finish(signal, collector)
    }
}

/// Puts each pair into a hash map.
pub struct HashMapCollector<K, V> {
    pub out: HashMap<K, V>,
}

impl<K, V> View for HashMapCollector<K, V> {
    type V = Map<K, V>;

    open spec fn view(&self) -> Map<K, V> {
        self.out@
    }
}

impl<K: Eq + Hash, V> Consumer<(K, V)> for HashMapCollector<K, V> {
    type Break = ();

    open spec fn ready(state: Map<K, V>, item: (K, V)) -> bool {
        obeys_key_model::<K>() && builds_valid_hashers::<RandomState>()
    }

    open spec fn step(state: Map<K, V>, item: (K, V)) -> (Map<K, V>, ControlFlow<()>) {
        (state.insert(item.0, item.1), ControlFlow::Continue(()))
    }

    fn accept(self, item: (K, V)) -> (out: (ControlFlow<()>, Self)) {
        let mut out = self.out;
        let _ = out.insert(item.0, item.1);
        (ControlFlow::Continue(()), HashMapCollector { out })
    }
}

/// A `HashMapCollector` ends with the pairs put into what it held.
pub proof fn lemma_hash_map_collector_run<K: Eq + Hash, V>(state: Map<K, V>, pairs: Seq<(K, V)>)
    ensures
        run::<(K, V), HashMapCollector<K, V>>(state, pairs) == (
            insert_all(state, pairs),
            ControlFlow::<(), ()>::Continue(()),
        ),
    decreases pairs.len(),
{
    if pairs.len() > 0 {
        lemma_hash_map_collector_run::<K, V>(
            state.insert(pairs[0].0, pairs[0].1),
            pairs.drop_first(),
        );
    }
}

/// What a `HashMapCollector` is ready for, where the keys can be hashed,
/// and how long it goes on.
pub proof fn lemma_hash_map_collector_oracle<K: Eq + Hash, V>(state: Map<K, V>)
    requires
        obeys_key_model::<K>(),
    ensures
        readiness::<(K, V), HashMapCollector<K, V>>(state) == unconditional::<(K, V)>(),
        progress::<(K, V), HashMapCollector<K, V>>(state) == unbroken::<(K, V)>(),
{
    broadcast use vstd::std_specs::hash::axiom_random_state_builds_valid_hashers;

    assert forall|seen: Seq<(K, V)>| #[trigger]
        going_after::<(K, V), HashMapCollector<K, V>>(state, seen) by {
        lemma_hash_map_collector_run::<K, V>(state, seen);
    }
    assert(readiness::<(K, V), HashMapCollector<K, V>>(state) =~= unconditional::<(K, V)>());
    assert(progress::<(K, V), HashMapCollector<K, V>>(state) =~= unbroken::<(K, V)>());
}

impl<K: Eq + Hash, V> FromInternalIterator<(K, V)> for HashMap<K, V> {
    open spec fn can_build() -> bool {
        obeys_key_model::<K>()
    }

    open spec fn builds_on() -> spec_fn(Seq<(K, V)>) -> bool {
        unbroken()
    }

    open spec fn built_from(&self, items: Seq<(K, V)>) -> bool {
        self@ == insert_all(Map::empty(), items)
    }

    type Collector = HashMapCollector<K, V>;

    open spec fn fresh() -> Map<K, V> {
        Map::empty()
    }

    fn collector() -> (c: HashMapCollector<K, V>) {
        broadcast use vstd::std_specs::hash::axiom_random_state_builds_valid_hashers;

        proof {
            lemma_hash_map_collector_oracle::<K, V>(Map::empty());
        }
        HashMapCollector { out: HashMap::new() }
    }

    fn finish(signal: ControlFlow<()>, collector: HashMapCollector<K, V>) -> (r: Self) {
        proof {
            assert forall|items: Seq<(K, V)>| #[trigger]
                run::<(K, V), HashMapCollector<K, V>>(Map::empty(), items) == (
                    collector@,
                    signal,
                ) implies collector@ == insert_all(Map::empty(), items) by {
                lemma_hash_map_collector_run::<K, V>(Map::empty(), items);
                
            }
        }
        collector.out
    }

    fn from_iter<T: IntoInternalIterator<Item = (K, V)>>(iter: T) -> (r: Self) {
        let source = iter.into_internal_iter();
        let (signal, collector) = source.try_for_each(Self::collector());
        Self::finish(signal, collector)
    }
}

/// Puts each item into an ordered set.
pub struct BTreeSetCollector<A> {
    pub out: BTreeSet<A>,
}

impl<A> View for BTreeSetCollector<A> {
    type V = Set<A>;

    open spec fn view(&self) -> Set<A> {
        self.out@
    }
}

impl<A: Ord> Consumer<A> for BTreeSetCollector<A> {
    type Break = ();

    open spec fn ready(state: Set<A>, item: A) -> bool {
        obeys_cmp::<A>()
    }

    open spec fn step(state: Set<A>, item: A) -> (Set<A>, ControlFlow<()>) {
        (state.insert(item), ControlFlow::Continue(()))
    }

    fn accept(self, item: A) -> (out: (ControlFlow<()>, Self)) {
        let mut out = self.out;
        let _ = out.insert(item);
        (ControlFlow::Continue(()), BTreeSetCollector { out })
    }
}

/// A `BTreeSetCollector` ends with the items added to what it held.
pub proof fn lemma_btree_set_collector_run<A: Ord>(state: Set<A>, items: Seq<A>)
    ensures
        run::<A, BTreeSetCollector<A>>(state, items) == (
            state.union(items.to_set()),
            ControlFlow::<(), ()>::Continue(()),
        ),
    decreases items.len(),
{
    if items.len() == 0 {
        assert(items.to_set() =~= Set::<A>::empty());
        assert(state.union(items.to_set()) =~= state);
    } else {
        let rest = items.drop_first();
        lemma_btree_set_collector_run::<A>(state.insert(items[0]), rest);
        lemma_to_set_first(items);
        assert(state.insert(items[0]).union(rest.to_set()) =~= state.union(items.to_set()));
    }
}

/// What a `BTreeSetCollector` is ready for, where the items are ordered
/// by the laws, and how long it goes on.
pub proof fn lemma_btree_set_collector_oracle<A: Ord>(state: Set<A>)
    requires
        obeys_cmp::<A>(),
    ensures
        readiness::<A, BTreeSetCollector<A>>(state) == unconditional::<A>(),
        progress::<A, BTreeSetCollector<A>>(state) == unbroken::<A>(),
{
    assert forall|seen: Seq<A>| #[trigger] going_after::<A, BTreeSetCollector<A>>(state, seen) by {
        lemma_btree_set_collector_run::<A>(state, seen);
    }
    assert(readiness::<A, BTreeSetCollector<A>>(state) =~= unconditional::<A>());
    assert(progress::<A, BTreeSetCollector<A>>(state) =~= unbroken::<A>());
}

impl<A: Ord> FromInternalIterator<A> for BTreeSet<A> {
    open spec fn can_build() -> bool {
        obeys_cmp::<A>()
    }

    open spec fn builds_on() -> spec_fn(Seq<A>) -> bool {
        unbroken()
    }

    open spec fn built_from(&self, items: Seq<A>) -> bool {
        self@ == items.to_set()
    }

    type Collector = BTreeSetCollector<A>;

    open spec fn fresh() -> Set<A> {
        Set::empty()
    }

    fn collector() -> (c: BTreeSetCollector<A>) {
        proof {
            lemma_btree_set_collector_oracle::<A>(Set::empty());
        }
        BTreeSetCollector { out: BTreeSet::new() }
    }

    fn finish(signal: ControlFlow<()>, collector: BTreeSetCollector<A>) -> (r: Self) {
        proof {
            assert forall|items: Seq<A>| #[trigger]
                run::<A, BTreeSetCollector<A>>(Set::empty(), items) == (
                    collector@,
                    signal,
                ) implies collector@ == items.to_set() by {
                lemma_btree_set_collector_run::<A>(Set::empty(), items);
                assert(Set::<A>::empty().union(items.to_set()) =~= items.to_set());
            }
        }
        collector.out
    }

    fn from_iter<T: IntoInternalIterator<Item = A>>(iter: T) -> (r: Self) {
        let source = iter.into_internal_iter();
        let (signal, collector) = source.try_for_each(Self::collector());
        Self::finish(signal, collector)
    }
}

/// Puts each pair into an ordered map.
pub struct BTreeMapCollector<K, V> {
    pub out: BTreeMap<K, V>,
}

impl<K, V> View for BTreeMapCollector<K, V> {
    type V = Map<K, V>;

    open spec fn view(&self) -> Map<K, V> {
        self.out@
    }
}

impl<K: Ord, V> Consumer<(K, V)> for BTreeMapCollector<K, V> {
    type Break = ();

    open spec fn ready(state: Map<K, V>, item: (K, V)) -> bool {
        obeys_cmp::<K>()
    }

    open spec fn step(state: Map<K, V>, item: (K, V)) -> (Map<K, V>, ControlFlow<()>) {
        (state.insert(item.0, item.1), ControlFlow::Continue(()))
    }

    fn accept(self, item: (K, V)) -> (out: (ControlFlow<()>, Self)) {
        let mut out = self.out;
        let _ = out.insert(item.0, item.1);
        (ControlFlow::Continue(()), BTreeMapCollector { out })
    }
}

/// A `BTreeMapCollector` ends with the pairs put into what it held.
pub proof fn lemma_btree_map_collector_run<K: Ord, V>(state: Map<K, V>, pairs: Seq<(K, V)>)
    ensures
        run::<(K, V), BTreeMapCollector<K, V>>(state, pairs) == (
            insert_all(state, pairs),
            ControlFlow::<(), ()>::Continue(()),
        ),
    decreases pairs.len(),
{
    if pairs.len() > 0 {
        lemma_btree_map_collector_run::<K, V>(
            state.insert(pairs[0].0, pairs[0].1),
            pairs.drop_first(),
        );
    }
}

/// What a `BTreeMapCollector` is ready for, where the keys are ordered by
/// the laws, and how long it goes on.
pub proof fn lemma_btree_map_collector_oracle<K: Ord, V>(state: Map<K, V>)
    requires
        obeys_cmp::<K>(),
    ensures
        readiness::<(K, V), BTreeMapCollector<K, V>>(state) == unconditional::<(K, V)>(),
        progress::<(K, V), BTreeMapCollector<K, V>>(state) == unbroken::<(K, V)>(),
{
    assert forall|seen: Seq<(K, V)>| #[trigger]
        going_after::<(K, V), BTreeMapCollector<K, V>>(state, seen) by {
        lemma_btree_map_collector_run::<K, V>(state, seen);
    }
    assert(readiness::<(K, V), BTreeMapCollector<K, V>>(state) =~= unconditional::<(K, V)>());
    assert(progress::<(K, V), BTreeMapCollector<K, V>>(state) =~= unbroken::<(K, V)>());
}

impl<K: Ord, V> FromInternalIterator<(K, V)> for BTreeMap<K, V> {
    open spec fn can_build() -> bool {
        obeys_cmp::<K>()
    }

    open spec fn builds_on() -> spec_fn(Seq<(K, V)>) -> bool {
        unbroken()
    }

    open spec fn built_from(&self, items: Seq<(K, V)>) -> bool {
        self@ == insert_all(Map::empty(), items)
    }

    type Collector = BTreeMapCollector<K, V>;

    open spec fn fresh() -> Map<K, V> {
        Map::empty()
    }

    fn collector() -> (c: BTreeMapCollector<K, V>) {
        proof {
            lemma_btree_map_collector_oracle::<K, V>(Map::empty());
        }
        BTreeMapCollector { out: BTreeMap::new() }
    }

    fn finish(signal: ControlFlow<()>, collector: BTreeMapCollector<K, V>) -> (r: Self) {
        proof {
            assert forall|items: Seq<(K, V)>| #[trigger]
                run::<(K, V), BTreeMapCollector<K, V>>(Map::empty(), items) == (
                    collector@,
                    signal,
                ) implies collector@ == insert_all(Map::empty(), items) by {
                lemma_btree_map_collector_run::<K, V>(Map::empty(), items);
                
            }
        }
        collector.out
    }

    fn from_iter<T: IntoInternalIterator<Item = (K, V)>>(iter: T) -> (r: Self) {
        let source = iter.into_internal_iter();
        let (signal, collector) = source.try_for_each(Self::collector());
        Self::finish(signal, collector)
    }
}

/// Appends the successful values to a vector and stops at the first error,
/// with that error.
pub struct OkCollector<R> {
    pub out: Vec<R>,
}

impl<R> View for OkCollector<R> {
    type V = Seq<R>;

    open spec fn view(&self) -> Seq<R> {
        self.out@
    }
}

impl<R, E> Consumer<Result<R, E>> for OkCollector<R> {
    type Break = E;

    open spec fn ready(state: Seq<R>, item: Result<R, E>) -> bool {
        true
    }

    open spec fn step(state: Seq<R>, item: Result<R, E>) -> (Seq<R>, ControlFlow<E>) {
        match item {
            Ok(value) => (state.push(value), ControlFlow::Continue(())),
            Err(error) => (state, ControlFlow::Break(error)),
        }
    }

    fn accept(self, item: Result<R, E>) -> (out: (ControlFlow<E>, Self)) {
        match item {
            Ok(value) => {
                let mut out = self.out;
                out.push(value);
                (ControlFlow::Continue(()), OkCollector { out })
            },
            Err(error) => (ControlFlow::Break(error), self),
        }
    }
}

/// The values that `items` hold, where each of them is `Ok`.
pub open spec fn ok_values<R, E>(items: Seq<Result<R, E>>) -> Seq<R> {
    items.map_values(|item: Result<R, E>| item->Ok_0)
}

/// An `OkCollector` breaks with the first error; where there is none, it
/// ends with all the values appended to what it held.
pub proof fn lemma_ok_collector_run<R, E>(state: Seq<R>, items: Seq<Result<R, E>>)
    ensures
        match first_match(items, |item: Result<R, E>| item is Err) {
            Some(i) => run::<Result<R, E>, OkCollector<R>>(state, items).1
                == ControlFlow::<E, ()>::Break(items[i]->Err_0),
            None => run::<Result<R, E>, OkCollector<R>>(state, items) == (
                state + ok_values(items),
                ControlFlow::<E, ()>::Continue(()),
            ),
        },
    decreases items.len(),
{
    if items.len() == 0 {
        assert(state + ok_values(items) =~= state);
    } else {
        let rest = items.drop_first();
        lemma_first_match(rest, |item: Result<R, E>| item is Err);
        match items[0] {
            Ok(value) => {
                lemma_ok_collector_run::<R, E>(state.push(value), rest);
                assert(state.push(value) + ok_values(rest) =~= state + ok_values(items));
            },
            Err(error) => {},
        }
    }
}

/// How long collecting fallible items goes on: up to the first error, and
/// then as long as building from the values does.
pub open spec fn ok_going<R, E>() -> spec_fn(Seq<Result<R, E>>) -> bool {
    |seen: Seq<Result<R, E>>| none_of(seen, |item: Result<R, E>| item is Err)
}

/// What an `OkCollector` is ready for and how long it goes on.
pub proof fn lemma_ok_collector_oracle<R, E>(state: Seq<R>)
    ensures
        readiness::<Result<R, E>, OkCollector<R>>(state) == unconditional::<Result<R, E>>(),
        progress::<Result<R, E>, OkCollector<R>>(state) == ok_going::<R, E>(),
{
    let going = ok_going::<R, E>();
    assert forall|seen: Seq<Result<R, E>>| #[trigger]
        going_after::<Result<R, E>, OkCollector<R>>(state, seen) == going(seen) by {
        lemma_ok_collector_run::<R, E>(state, seen);
        lemma_none_of(seen, |item: Result<R, E>| item is Err);
    }
    assert(readiness::<Result<R, E>, OkCollector<R>>(state) =~= unconditional::<
        Result<R, E>,
    >());
    assert(progress::<Result<R, E>, OkCollector<R>>(state) =~= going);
}

impl<C: FromInternalIterator<R>, R, E> FromInternalIterator<Result<R, E>> for Result<C, E> {
    open spec fn can_build() -> bool {
        C::can_build()
    }

    open spec fn builds_on() -> spec_fn(Seq<Result<R, E>>) -> bool {
        ok_going()
    }

    /// The first error, where there is one; otherwise the container built
    /// from the values.
    open spec fn built_from(&self, items: Seq<Result<R, E>>) -> bool {
        match first_match(items, |item: Result<R, E>| item is Err) {
            Some(i) => *self == Err::<C, E>(items[i]->Err_0),
            None => self matches Ok(container) && container.built_from(ok_values(items)),
        }
    }

    type Collector = OkCollector<R>;

    open spec fn fresh() -> Seq<R> {
        Seq::empty()
    }

    fn collector() -> (c: OkCollector<R>) {
        proof {
            lemma_ok_collector_oracle::<R, E>(Seq::empty());
        }
        OkCollector { out: Vec::new() }
    }

    /// The error that the collector broke with; where there is none, the
    /// container built from the values that it holds.
    fn finish(signal: ControlFlow<E>, collector: OkCollector<R>) -> (r: Self) {
        proof {
            assert forall|items: Seq<Result<R, E>>| #[trigger]
                run::<Result<R, E>, OkCollector<R>>(Seq::empty(), items) == (
                    collector@,
                    signal,
                ) implies (match first_match(items, |item: Result<R, E>| item is Err) {
                Some(i) => signal == ControlFlow::<E, ()>::Break(items[i]->Err_0),
                None => signal is Continue && collector@ == ok_values(items),
            }) by {
                lemma_ok_collector_run::<R, E>(Seq::empty(), items);
                assert(Seq::<R>::empty() + ok_values(items) =~= ok_values(items));
            }
        }
        match signal {
            ControlFlow::Break(error) => Err(error),
            ControlFlow::Continue(_) => Ok(C::from_iter(collector.out)),
        }
    }

    /// Stops at the first error and returns it. Where there is none, builds
    /// the container from the values.
    fn from_iter<T: IntoInternalIterator<Item = Result<R, E>>>(iter: T) -> (r: Self) {
        let source = iter.into_internal_iter();
        let (signal, collector) = source.try_for_each(Self::collector());
        Self::finish(signal, collector)
    }
}

} // verus!
