//! Internal iteration: the collection drives the traversal and hands each
//! item to a consumer, which may tell it to stop.
//!
//! One operation, [`InternalIterator::try_for_each`], is all a new source has
//! to provide. Every adaptor and every terminal operation is built on it and
//! stated against the sequence of items that the source yields.
//!
//! - [`consumer`]: what a traversal feeds, and what a run over given items
//!   comes to.
//! - [`iterator`]: the iterator trait with its terminal operations and the
//!   constructors of the adaptors; [`ext`] holds the two operations that
//!   rest on a conversion.
//! - [`adaptors`]: one module for each adaptor.
//! - [`terminal`] and [`extremum`]: the consumers behind the terminal
//!   operations.
//! - [`func`]: the functions that are handed to adaptors and operations.
//! - [`convert`] and [`collect`]: turning values into iterators and
//!   iterators into containers.
//! - [`sources`], [`ranges`], [`borrowed`], [`bridge`] and [`from_fn_impl`]:
//!   where items come from.
//! - [`laws`]: what holds of every traversal.
pub mod adaptors;
pub mod borrowed;
pub mod bridge;
pub mod collect;
pub mod consumer;
pub mod convert;
pub mod ext;
pub mod extremum;
pub mod from_fn_impl;
pub mod func;
pub mod iterator;
pub mod laws;
pub mod ranges;
pub mod sources;
pub mod terminal;

pub use crate::adaptors::chain::Chain;
pub use crate::adaptors::cloned::Cloned;
pub use crate::adaptors::copied::Copied;
pub use crate::adaptors::enumerate::Enumerate;
pub use crate::adaptors::filter::Filter;
pub use crate::adaptors::filter_map::FilterMap;
pub use crate::adaptors::flat_map::FlatMap;
pub use crate::adaptors::inspect::Inspect;
pub use crate::adaptors::map::Mapped;
pub use crate::adaptors::skip::Skip;
pub use crate::adaptors::take::Take;
pub use crate::bridge::{Internal, IteratorExt};
pub use crate::consumer::{progress, reaches, readiness, run, Consumer};
pub use crate::convert::{FromInternalIterator, IntoInternalIterator};
pub use crate::ext::InternalIteratorExt;
pub use crate::from_fn_impl::{from_fn, BreakValue, FromFn, Generator, Sink};
pub use crate::func::{max_by, min_by, Comparator, Natural, RefFn, UnaryFn};
pub use crate::iterator::InternalIterator;
