//! The functions that callers hand to adaptors and terminal operations.
//!
//! What comes out of a traversal can only be stated where each of these has
//! one result on each item. A function is therefore a value of a type that
//! says what it may be called with and which result it has there.
//!
//! A closure can stand in for a function of one argument. Of a closure only
//! the results that it may give are known, so it is accepted on an item
//! where it can give no more than one, and its result there is that one.
//! Code that is to prove what a pipeline yields gives each function a type
//! of its own, whose result is written out.
use core::cmp::Ordering;
use vstd::prelude::*;
use vstd::std_specs::cmp::OrdSpec;

verus! {

/// A function of one argument, taken by value. Calling it does not change
/// it.
pub trait UnaryFn<T>: Sized {
    /// The type of the results.
    type Output;

    /// Whether the function may be called with `x`.
    spec fn accepts(&self, x: T) -> bool;

    /// The result on `x`.
    spec fn result(&self, x: T) -> Self::Output;

    /// Calls the function with `x`.
    fn invoke(&mut self, x: T) -> (r: Self::Output)
        requires
            old(self).accepts(x),
        ensures
            r == old(self).result(x),
            *final(self) == *old(self),
    ;
}

/// A function of one argument, taken by reference. Calling it does not
/// change it.
pub trait RefFn<T>: Sized {
    /// The type of the results.
    type Output;

    /// Whether the function may be called with a reference to `x`.
    spec fn accepts_ref(&self, x: T) -> bool;

    /// The result on a reference to `x`.
    spec fn result_ref(&self, x: T) -> Self::Output;

    /// Calls the function with `x`.
    fn invoke_ref(&mut self, x: &T) -> (r: Self::Output)
        requires
            old(self).accepts_ref(*x),
        ensures
            r == old(self).result_ref(*x),
            *final(self) == *old(self),
    ;
}

/// A function that orders two values. Calling it does not change it.
pub trait Comparator<T>: Sized {
    /// Whether the function may be called with `x` and `y`.
    spec fn decides(&self, x: T, y: T) -> bool;

    /// How `x` stands to `y`.
    spec fn order(&self, x: T, y: T) -> Ordering;

    /// Compares `x` with `y`.
    fn compare(&mut self, x: &T, y: &T) -> (o: Ordering)
        requires
            old(self).decides(*x, *y),
        ensures
            o == old(self).order(*x, *y),
            *final(self) == *old(self),
    ;
}

/// `f` may be called with `x` and has at most one possible result there.
pub open spec fn determined<T, U, F: FnMut(T) -> U>(f: F, x: T) -> bool {
    &&& call_requires(f, (x,))
    &&& forall|y1: U, y2: U|
        call_ensures(f, (x,), y1) && call_ensures(f, (x,), y2) ==> y1 == y2
}

/// The result of `f` on `x`, where `f` is determined there and returns.
pub open spec fn value<T, U, F: FnMut(T) -> U>(f: F, x: T) -> U {
    choose|y: U| call_ensures(f, (x,), y)
}

/// `f` may be called with a reference to `x` and has at most one possible
/// result there.
pub open spec fn determined_ref<T, U, F: FnMut(&T) -> U>(f: F, x: T) -> bool {
    &&& call_requires(f, (&x,))
    &&& forall|y1: U, y2: U|
        call_ensures(f, (&x,), y1) && call_ensures(f, (&x,), y2) ==> y1 == y2
}

/// The result of `f` on a reference to `x`, where `f` is determined there
/// and returns.
pub open spec fn value_ref<T, U, F: FnMut(&T) -> U>(f: F, x: T) -> U {
    choose|y: U| call_ensures(f, (&x,), y)
}

impl<T, U, F: FnMut(T) -> U> UnaryFn<T> for F {
    type Output = U;

    open spec fn accepts(&self, x: T) -> bool {
        determined(*self, x)
    }

    open spec fn result(&self, x: T) -> U {
        value(*self, x)
    }

    fn invoke(&mut self, x: T) -> (r: U) {
        self(x)
    }
}

impl<T, U, F: FnMut(&T) -> U> RefFn<T> for F {
    type Output = U;

    open spec fn accepts_ref(&self, x: T) -> bool {
        determined_ref(*self, x)
    }

    open spec fn result_ref(&self, x: T) -> U {
        value_ref(*self, x)
    }

    fn invoke_ref(&mut self, x: &T) -> (r: U) {
        self(x)
    }
}

/// The order that `Ord` gives to a type.
pub struct Natural {}

impl<T: Ord> Comparator<T> for Natural {
    open spec fn decides(&self, x: T, y: T) -> bool {
        T::obeys_cmp_spec()
    }

    open spec fn order(&self, x: T, y: T) -> Ordering {
        x.cmp_spec(&y)
    }

    fn compare(&mut self, x: &T, y: &T) -> (o: Ordering) {
        x.cmp(y)
    }
}

/// The greater of `x` and `y` under `compare`; `x` where they are equal.
pub fn max_by<A, C: Comparator<A>>(x: A, y: A, compare: &mut C) -> (r: A)
    requires
        old(compare).decides(x, y),
    ensures
        *final(compare) == *old(compare),
        r == (if old(compare).order(x, y) == Ordering::Less {
            y
        } else {
            x
        }),
{
    match compare.compare(&x, &y) {
        Ordering::Less => y,
        Ordering::Equal | Ordering::Greater => x,
    }
}

/// The lesser of `x` and `y` under `compare`; `x` where they are equal.
pub fn min_by<A, C: Comparator<A>>(x: A, y: A, compare: &mut C) -> (r: A)
    requires
        old(compare).decides(x, y),
    ensures
        *final(compare) == *old(compare),
        r == (if old(compare).order(x, y) == Ordering::Greater {
            y
        } else {
            x
        }),
{
    match compare.compare(&x, &y) {
        Ordering::Less | Ordering::Equal => x,
        Ordering::Greater => y,
    }
}

} // verus!
