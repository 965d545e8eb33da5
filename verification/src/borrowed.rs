//! Borrowed sets and maps, walked through their conventional iterators.
use crate::bridge::{Internal, IteratorExt};
use crate::consumer::safe_within;
use crate::convert::IntoInternalIterator;
use std::collections::{btree_map, btree_set, hash_map, hash_set};
use std::collections::{BTreeMap, BTreeSet, HashMap, HashSet};
use vstd::prelude::*;
use vstd::std_specs::btree::key_obeys_cmp_spec;
use vstd::std_specs::hash::obeys_key_model;
use vstd::std_specs::iter::IteratorSpec;

verus! {

impl<'a, T> IntoInternalIterator for &'a HashSet<T> {
    type Item = &'a T;

    type IntoIter = Internal<hash_set::Iter<'a, T>>;

    /// The order in which a hash set is walked is not known.
    open spec fn into_items(&self) -> Seq<&'a T> {
        Seq::empty()
    }

    open spec fn into_safe(
        &self,
        ready: spec_fn(Seq<&'a T>, &'a T) -> bool,
        going: spec_fn(Seq<&'a T>) -> bool,
    ) -> bool {
        obeys_key_model::<T>() && safe_within(self.iter().decrease()->0, ready, going)
    }

    open spec fn into_exact(&self) -> bool {
        false
    }

    fn into_internal_iter(self) -> (r: Internal<hash_set::Iter<'a, T>>)
        ensures
            obeys_key_model::<T>() ==> r.iterator == self.iter(),
    {
        broadcast use vstd::std_specs::hash::axiom_random_state_builds_valid_hashers;

        self.iter().into_internal()
    }
}

impl<'a, K, V> IntoInternalIterator for &'a HashMap<K, V> {
    type Item = (&'a K, &'a V);

    type IntoIter = Internal<hash_map::Iter<'a, K, V>>;

    /// The order in which a hash map is walked is not known.
    open spec fn into_items(&self) -> Seq<(&'a K, &'a V)> {
        Seq::empty()
    }

    open spec fn into_safe(
        &self,
        ready: spec_fn(Seq<(&'a K, &'a V)>, (&'a K, &'a V)) -> bool,
        going: spec_fn(Seq<(&'a K, &'a V)>) -> bool,
    ) -> bool {
        obeys_key_model::<K>() && safe_within(self.iter().decrease()->0, ready, going)
    }

    open spec fn into_exact(&self) -> bool {
        false
    }

    fn into_internal_iter(self) -> (r: Internal<hash_map::Iter<'a, K, V>>)
        ensures
            obeys_key_model::<K>() ==> r.iterator == self.iter(),
    {
        broadcast use vstd::std_specs::hash::axiom_random_state_builds_valid_hashers;

        self.iter().into_internal()
    }
}

impl<'a, T> IntoInternalIterator for &'a BTreeSet<T> {
    type Item = &'a T;

    type IntoIter = Internal<btree_set::Iter<'a, T>>;

    open spec fn into_items(&self) -> Seq<&'a T> {
        Seq::empty()
    }

    open spec fn into_safe(
        &self,
        ready: spec_fn(Seq<&'a T>, &'a T) -> bool,
        going: spec_fn(Seq<&'a T>) -> bool,
    ) -> bool {
        key_obeys_cmp_spec::<T>() && safe_within(self.iter().decrease()->0, ready, going)
    }

    open spec fn into_exact(&self) -> bool {
        false
    }

    fn into_internal_iter(self) -> (r: Internal<btree_set::Iter<'a, T>>)
        ensures
            key_obeys_cmp_spec::<T>() ==> r.iterator == self.iter(),
    {
        self.iter().into_internal()
    }
}

impl<'a, K, V> IntoInternalIterator for &'a BTreeMap<K, V> {
    type Item = (&'a K, &'a V);

    type IntoIter = Internal<btree_map::Iter<'a, K, V>>;

    open spec fn into_items(&self) -> Seq<(&'a K, &'a V)> {
        Seq::empty()
    }

    open spec fn into_safe(
        &self,
        ready: spec_fn(Seq<(&'a K, &'a V)>, (&'a K, &'a V)) -> bool,
        going: spec_fn(Seq<(&'a K, &'a V)>) -> bool,
    ) -> bool {
        key_obeys_cmp_spec::<K>() && safe_within(self.iter().decrease()->0, ready, going)
    }

    open spec fn into_exact(&self) -> bool {
        false
    }

    fn into_internal_iter(self) -> (r: Internal<btree_map::Iter<'a, K, V>>)
        ensures
            key_obeys_cmp_spec::<K>() ==> r.iterator == self.iter(),
    {
        self.iter().into_internal()
    }
}

} // verus!
